//! Errors of the crawler and of the programs around it.
use vstd::prelude::*;
use vstd::std_specs::convert::FromSpecImpl;
use vstd::string::StringExecFns;
use crate::link::UrlParseError;

verus! {

#[verifier::external_type_specification]
#[verifier::external_body]
pub struct ExIoError(std::io::Error);

/// Error types for Bullfinch.
#[derive(Debug)]
pub enum BfError {
    Io(std::io::Error),
    UnexpectedCommandType,
    PageNotExist,
    Parse(String),
    UrlError(UrlParseError),
    /// A command line that the program refused, with the text of its
    /// refusal.
    CliError(String),
    DomainNotRegistered(u32),
}

impl From<UrlParseError> for BfError {
    fn from(e: UrlParseError) -> (r: BfError) {
        BfError::UrlError(e)
    }
}

impl FromSpecImpl<UrlParseError> for BfError {
    open spec fn obeys_from_spec() -> bool {
        true
    }

    open spec fn from_spec(e: UrlParseError) -> BfError {
        BfError::UrlError(e)
    }
}

impl From<std::io::Error> for BfError {
    fn from(e: std::io::Error) -> (r: BfError) {
        BfError::Io(e)
    }
}

impl FromSpecImpl<std::io::Error> for BfError {
    open spec fn obeys_from_spec() -> bool {
        true
    }

    open spec fn from_spec(e: std::io::Error) -> BfError {
        BfError::Io(e)
    }
}

/// The digit character for `d`, which is below ten.
pub open spec fn digit_char(d: nat) -> char {
    if d == 0 { '0' }
    else if d == 1 { '1' }
    else if d == 2 { '2' }
    else if d == 3 { '3' }
    else if d == 4 { '4' }
    else if d == 5 { '5' }
    else if d == 6 { '6' }
    else if d == 7 { '7' }
    else if d == 8 { '8' }
    else { '9' }
}

/// The decimal notation of `n`, without leading zeros.
pub open spec fn decimal(n: nat) -> Seq<char>
    decreases n,
{
    if n < 10 {
        seq![digit_char(n)]
    } else {
        decimal(n / 10).push(digit_char(n % 10))
    }
}

/// The number that the decimal digits `s` denote.
pub open spec fn digits_value(s: Seq<char>) -> int
    decreases s.len(),
{
    if s.len() == 0 {
        0
    } else {
        digits_value(s.drop_last()) * 10 + (s.last() as int - '0' as int)
    }
}

proof fn lemma_digit_char_value(d: nat)
    requires
        d < 10,
    ensures
        digit_char(d) as int - '0' as int == d,
        '0' <= digit_char(d) <= '9',
{
}

/// The decimal notation of `n` is made of decimal digits, denotes `n`, and
/// has no leading zero (unless `n` is zero).
pub proof fn law_decimal_denotes_its_number(n: nat)
    ensures
        decimal(n).len() > 0,
        forall|i: int| 0 <= i < decimal(n).len() ==> '0' <= #[trigger] decimal(n)[i] <= '9',
        digits_value(decimal(n)) == n,
        n > 0 ==> decimal(n)[0] != '0',
    decreases n,
{
    if n >= 10 {
        law_decimal_denotes_its_number(n / 10);
        let d = decimal(n);
        let prev = decimal(n / 10);
        assert(d == prev.push(digit_char(n % 10)));
        assert(d.drop_last() =~= prev);
        lemma_digit_char_value(n % 10);
        assert(d.last() == digit_char(n % 10));
        assert((n / 10) * 10 + n % 10 == n) by (nonlinear_arith);
        assert(digits_value(d) == digits_value(prev) * 10 + (d.last() as int - '0' as int));
        assert(d[0] == prev[0]);
        assert forall|i: int| 0 <= i < d.len() implies '0' <= #[trigger] d[i] <= '9' by {
            if i < prev.len() {
                assert(d[i] == prev[i]);
            }
        }
    } else {
        assert(decimal(n).drop_last() =~= Seq::<char>::empty());
        lemma_digit_char_value(n);
        assert(decimal(n).last() == digit_char(n));
        assert(digits_value(decimal(n)) == digits_value(Seq::<char>::empty()) * 10 + (digit_char(n)
            as int - '0' as int));
    }
}

/// Appends `c` with `String::push`.
#[verifier::external_body]
fn push_char(s: &mut String, c: char)
    ensures
        final(s)@ == old(s)@.push(c),
{
    s.push(c);
}

fn digit_of(d: u32) -> (c: char)
    requires
        d < 10,
    ensures
        c == digit_char(d as nat),
{
    if d == 0 { '0' }
    else if d == 1 { '1' }
    else if d == 2 { '2' }
    else if d == 3 { '3' }
    else if d == 4 { '4' }
    else if d == 5 { '5' }
    else if d == 6 { '6' }
    else if d == 7 { '7' }
    else if d == 8 { '8' }
    else { '9' }
}

/// Appends the decimal notation of `n` to `s`.
fn push_decimal(s: &mut String, n: u32)
    ensures
        final(s)@ == old(s)@ + decimal(n as nat),
    decreases n,
{
    if n < 10 {
        push_char(s, digit_of(n));
        assert(decimal(n as nat) == seq![digit_char(n as nat)]);
    } else {
        push_decimal(s, n / 10);
        push_char(s, digit_of(n % 10));
    }
}

/// The decimal notation of `n`.
pub fn decimal_string(n: u32) -> (r: String)
    ensures
        r@ == decimal(n as nat),
{
    let mut s = String::new();
    push_decimal(&mut s, n);
    assert(s@ =~= decimal(n as nat));
    s
}

impl BfError {
    /// The text shown for this error.
    pub fn message(&self) -> (r: String)
        ensures
            self matches BfError::UrlError(e) ==> r@ == "(UrlError "@ + e.text() + ")"@,
            self matches BfError::DomainNotRegistered(id) ==>
                r@ == "(Domain Not Registered. Domain id: "@ + decimal(id as nat) + ")"@,
            !(self is UrlError) && !(self is DomainNotRegistered) ==>
                r@ == "(Other bullfinch error)"@,
    {
        match self {
            BfError::UrlError(e) => {
                let mut s = String::from_str("(UrlError ");
                s.append(e.as_str());
                s.append(")");
                s
            },
            BfError::DomainNotRegistered(id) => {
                let mut s = String::from_str("(Domain Not Registered. Domain id: ");
                push_decimal(&mut s, *id);
                s.append(")");
                s
            },
            _ => String::from_str("(Other bullfinch error)"),
        }
    }
}

} // verus!
