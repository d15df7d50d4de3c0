use swift_check::arch::{load, range};
use swift_check::require::{check, Condition, ErrMsg, Requirement, Requires};
use swift_check::{
    ensure, eq, find, for_all_ensure, for_all_ensure_ct, one_of2, one_of3, one_of4, or, search,
};

#[test]
fn for_all_ensure_range_is_inclusive() {
    let input = b"hello world";
    let res = for_all_ensure(input, or(range::<0, 127>(), eq(b' ')));
    assert!(res);
}

fn one_of_two(input: u128, a: u8, b: u8) -> bool {
    ensure(input, one_of2(eq(a), eq(b)))
}

fn one_of_three(input: u128, a: u8, b: u8, c: u8) -> bool {
    ensure(input, one_of3(eq(a), eq(b), eq(c)))
}

fn one_of_four(input: u128, a: u8, b: u8, c: u8, d: u8) -> bool {
    ensure(input, one_of4(eq(a), eq(b), eq(c), eq(d)))
}

fn failure_perms(input: u128, f_val: u8, a_val: u8) {
    assert!(!one_of_two(input, f_val, f_val));
    assert!(!one_of_three(input, f_val, f_val, f_val));
    assert!(!one_of_four(input, f_val, f_val, f_val, f_val));

    assert!(!one_of_four(input, f_val, f_val, a_val, a_val));
    assert!(!one_of_four(input, a_val, a_val, f_val, f_val));

    assert!(!one_of_four(input, a_val, f_val, a_val, f_val));
    assert!(!one_of_four(input, f_val, a_val, f_val, a_val));

    assert!(!one_of_four(input, f_val, a_val, a_val, f_val));
    assert!(!one_of_four(input, a_val, f_val, f_val, a_val));
}

#[test]
fn one_of_permutations() {
    let input = load(&[0u8; 16]);
    failure_perms(input, 0, 0);
    failure_perms(input, 0, 1);
    failure_perms(input, 1, 0);

    assert!(one_of_four(input, 0, 1, 1, 1));
    assert!(one_of_four(input, 1, 0, 1, 1));
    assert!(one_of_four(input, 1, 1, 0, 1));
    assert!(one_of_four(input, 1, 1, 1, 0));
    assert!(one_of_three(input, 0, 1, 1));
    assert!(one_of_three(input, 1, 0, 1));
    assert!(one_of_three(input, 1, 1, 0));
    assert!(one_of_two(input, 0, 1));
    assert!(one_of_two(input, 1, 0));
    assert!(ensure(input, eq(0)));
    assert!(!ensure(input, eq(1)));

    // none true

    assert!(!one_of_four(input, 1, 1, 1, 1));
    assert!(!one_of_three(input, 1, 1, 1));
    assert!(!one_of_two(input, 1, 1));
    assert!(!ensure(input, eq(1)));
}

#[test]
fn one_of_nesting() {
    let input = load(&[1u8; 16]);

    assert!(ensure(
        input,
        one_of4(
            one_of4(eq(1), eq(0), eq(0), eq(0)),
            one_of4(eq(0), eq(0), eq(0), eq(0)),
            one_of4(eq(0), eq(0), eq(0), eq(0)),
            one_of4(eq(0), eq(0), eq(0), eq(0)),
        )
    ));

    assert!(!ensure(input, one_of2(eq(1), eq(1))));

    assert!(ensure(
        input,
        one_of3(
            one_of4(eq(0), eq(0), eq(0), eq(0)), // fails
            one_of4(eq(1), eq(1), eq(1), eq(1)), // fails
            one_of4(eq(1), eq(0), eq(0), eq(0)), // succeeds therefore true
        )
    ));
}

#[test]
fn simple_search() {
    let input = b"I am a simple input to evaluate the correctness of the search";

    let res = search(input, eq(b'h')).unwrap();
    assert_eq!(input[res], b'h');
}

struct SpecialError(&'static str);

impl From<SpecialError> for ErrMsg {
    fn from(value: SpecialError) -> Self {
        ErrMsg::new(value.0)
    }
}

impl SpecialError {
    fn new(msg: &'static str) -> Self {
        Self(msg)
    }
}

/// There should be at least one uppercase letter
fn uppercase() -> impl Condition<Error = ErrMsg> {
    Requires::new(range::<b'A', b'Z'>(), || ErrMsg::new("needs uppercase!"))
}

/// There should be at least one lowercase letter
fn lowercase() -> impl Condition<Error = ErrMsg> {
    Requires::new(range::<b'a', b'z'>(), || ErrMsg::new("needs lowercase!"))
}

/// There needs to be at least one number
fn numeric() -> impl Condition<Error = SpecialError> {
    Requires::new(range::<b'0', b'9'>(), || SpecialError("needs number!"))
}

/// Question marks are a requirement
fn question_mark() -> impl Condition<Error = SpecialError> {
    Requires::new(eq(b'?'), || SpecialError::new("needs a question mark!"))
}

struct Requirements<A, B, C, D> {
    valid: bool,
    uppercase: A,
    lowercase: B,
    numeric: C,
    question_mark: D,
}

impl<A, B, C, D> Requirement for Requirements<A, B, C, D>
where
    A: Condition,
    A::Error: Into<ErrMsg>,
    B: Condition,
    B::Error: Into<ErrMsg>,
    C: Condition,
    C::Error: Into<ErrMsg>,
    D: Condition,
    D::Error: Into<ErrMsg>,
{
    type Error = ErrMsg;

    fn check(&mut self, vector: u128) {
        self.valid &= (self.uppercase.check(vector)
            | self.lowercase.check(vector)
            | self.numeric.check(vector)
            | self.question_mark.check(vector))
        .all_bits_set();
    }

    fn check_partial(&mut self, vector: u128, len: u32) {
        self.valid &= (self.uppercase.check(vector)
            | self.lowercase.check(vector)
            | self.numeric.check(vector)
            | self.question_mark.check(vector))
        .trailing_ones()
            >= len;
    }

    fn result(self) -> (bool, Result<(), ErrMsg>) {
        if let Err(err) = self.uppercase.ok() {
            return (self.valid, Err(err.into()));
        };
        if let Err(err) = self.lowercase.ok() {
            return (self.valid, Err(err.into()));
        };
        if let Err(err) = self.numeric.ok() {
            return (self.valid, Err(err.into()));
        };
        if let Err(err) = self.question_mark.ok() {
            return (self.valid, Err(err.into()));
        };
        (self.valid, Ok(()))
    }

    fn results(self) -> (bool, Vec<Result<(), ErrMsg>>) {
        (
            self.valid,
            vec![
                self.uppercase.ok().map_err(|err| -> ErrMsg { err.into() }),
                self.lowercase.ok().map_err(|err| -> ErrMsg { err.into() }),
                self.numeric.ok().map_err(|err| -> ErrMsg { err.into() }),
                self.question_mark.ok().map_err(|err| -> ErrMsg { err.into() }),
            ],
        )
    }
}

fn requirements() -> impl Requirement<Error = ErrMsg> {
    Requirements {
        valid: true,
        uppercase: uppercase(),
        lowercase: lowercase(),
        numeric: numeric(),
        question_mark: question_mark(),
    }
}

#[test]
fn test() {
    let res = check(b"hello world 12345678910", requirements());

    // you can iterate through the errors
    for res in res.results().1 {
        if let Err(err) = res {
            println!("Unsatisfied Requirement: {}", err.to_string());
        }
    }

    let res = check(b"hello world 12345678910", requirements());

    // or if you just want to know if an err took place you can use ok
    match res.result().1 {
        Err(err) => println!("Unsatisfied Requirement: {}", err.to_string()),
        Ok(()) => panic!("a requirement was not met"),
    }
}

#[test]
fn requirements_name_what_was_missing() {
    let (valid, results) = check(b"hello world 12345678910", requirements()).results();
    // the space meets no requirement
    assert!(!valid);
    let messages: Vec<Option<String>> =
        results.into_iter().map(|r| r.err().map(|e| e.to_string())).collect();
    assert_eq!(
        messages,
        vec![
            Some("needs uppercase!".to_string()),
            None,
            None,
            Some("needs a question mark!".to_string()),
        ]
    );

    let (valid, first) = check(b"hello world 12345678910", requirements()).result();
    assert!(!valid);
    assert_eq!(first.unwrap_err().as_str(), "needs uppercase!");

    let (valid, first) = check(b"Aa0?", requirements()).result();
    assert!(valid);
    assert!(first.is_ok());

    // longer than a register: the tail window is handed over too
    let (valid, first) = check(b"aaaaaaaaaaaaaaaaaaaaaaaaaaaaaaaaaA0?", requirements()).result();
    assert!(valid);
    assert!(first.is_ok());

    let (valid, first) = check(b"aaaaaaaaaaaaaaaaaaaaaaaaaaaaaaaaaA0 ", requirements()).result();
    assert!(!valid);
    assert_eq!(first.unwrap_err().as_str(), "needs a question mark!");
}

#[test]
fn err_msg_holds_its_message() {
    let err = ErrMsg::new("missing");
    assert_eq!(err.msg, "missing");
    assert_eq!(err.as_str(), "missing");
    assert_eq!(err.to_string(), "missing".to_string());
    let from: ErrMsg = "other".into();
    assert_eq!(from.msg, "other");
}

#[test]
fn search_hello_world() {
    assert_eq!(search(b"hello world", eq(b'w')), Some(6));
    assert_eq!(search(b"hello world", eq(b'z')), None);
    assert_eq!(search(b"", eq(b'z')), None);
}

#[test]
fn for_all_ensure_lowercase() {
    assert!(!for_all_ensure(b"abcXdef", range::<b'a', b'z'>()));
    assert!(for_all_ensure(b"abcdef", range::<b'a', b'z'>()));
    assert!(!for_all_ensure_ct(b"abcXdef", range::<b'a', b'z'>()));
    assert!(for_all_ensure_ct(b"abcdef", range::<b'a', b'z'>()));
    // every byte of no bytes passes
    assert!(for_all_ensure(b"", eq(0)));
    assert!(for_all_ensure_ct(b"", eq(0)));
}

#[test]
fn one_register_and_one_byte_more() {
    let sixteen = b"aaaaaaaaaaaaaaaB";
    let seventeen = b"aaaaaaaaaaaaaaaaB";
    assert_eq!(search(sixteen, eq(b'B')), Some(15));
    assert_eq!(search(seventeen, eq(b'B')), Some(16));
    assert_eq!(search(sixteen, eq(b'C')), None);
    assert_eq!(search(seventeen, eq(b'C')), None);
    assert!(!for_all_ensure(sixteen, eq(b'a')));
    assert!(!for_all_ensure(seventeen, eq(b'a')));
    assert!(!for_all_ensure_ct(sixteen, eq(b'a')));
    assert!(!for_all_ensure_ct(seventeen, eq(b'a')));
    assert!(for_all_ensure(&sixteen[..15], eq(b'a')));
    assert!(for_all_ensure(&seventeen[..16], eq(b'a')));
    assert!(for_all_ensure_ct(&seventeen[..16], eq(b'a')));
    assert!(for_all_ensure(seventeen, or(eq(b'a'), eq(b'B'))));
    assert!(for_all_ensure_ct(seventeen, or(eq(b'a'), eq(b'B'))));
}

#[test]
fn one_of_three_literals() {
    let cond = || one_of3(eq(0), eq(1), eq(2));
    assert_eq!(search(&[0], cond()), Some(0));
    assert_eq!(search(&[1], cond()), Some(0));
    assert_eq!(search(&[2], cond()), Some(0));
    assert_eq!(search(&[3], cond()), None);
    assert_eq!(search(&[3, 3, 2, 3], cond()), Some(2));
}

#[test]
fn one_of_four_holds_for_three() {
    // three of four conditions hold of the byte 5, and an odd number is what
    // the condition asks for
    let input = load(&[5u8; 16]);
    assert!(ensure(input, one_of4(eq(5), eq(5), eq(5), eq(0))));
    assert!(!ensure(input, one_of4(eq(5), eq(5), eq(0), eq(0))));
    assert!(!ensure(input, one_of4(eq(5), eq(5), eq(5), eq(5))));
    assert!(ensure(input, one_of4(eq(0), eq(0), eq(5), eq(0))));
}

#[test]
fn find_gives_the_lane() {
    let input = b"aaaaaaaaaaaaaaaB";
    let data = load(input);
    assert_eq!(find(data, eq(b'B')), Some(15));
    assert_eq!(find(data, eq(b'a')), Some(0));
    assert_eq!(find(data, eq(b'C')), None);
    assert!(!ensure(data, eq(b'a')));
    assert!(ensure(data, or(eq(b'a'), eq(b'B'))));
}
