//! Entity identifiers: a number or a text, whichever a backend uses.

use crate::error::AcariError;
use crate::text::{
    chars_of, decimal, digit_char, is_digit, lemma_decimal_digits, parse_unsigned, push_char, push_decimal, push_str,
    string_of, unsigned_digits, unsigned_of, NumberError,
};
use vstd::prelude::*;
use vstd::utf8::encode_utf8;

verus! {

/// An identifier as one backend or the other hands it out.
#[derive(Debug, Clone, Hash)]
pub enum Id {
    Num(u64),
    Str(String),
}

pub type AccountId = Id;

pub type UserId = Id;

pub type CustomerId = Id;

pub type ProjectId = Id;

pub type ServiceId = Id;

pub type TimeEntryId = Id;

/// The value of an identifier.
pub ghost enum IdView {
    Num(u64),
    Str(Seq<char>),
}

impl View for Id {
    type V = IdView;

    open spec fn view(&self) -> IdView {
        match self {
            Id::Num(n) => IdView::Num(*n),
            Id::Str(s) => IdView::Str(s@),
        }
    }
}

impl PartialEq for Id {
    fn eq(&self, other: &Id) -> (r: bool)
        ensures
            r == (self@ == other@),
    {
        match (self, other) {
            (Id::Num(a), Id::Num(b)) => *a == *b,
            (Id::Str(a), Id::Str(b)) => {
                let r = *a == *b;
                r
            },
            _ => false,
        }
    }
}

impl vstd::std_specs::cmp::PartialEqSpecImpl for Id {
    open spec fn obeys_eq_spec() -> bool {
        true
    }

    open spec fn eq_spec(&self, other: &Id) -> bool {
        self@ == other@
    }
}

impl Eq for Id {
}

/// The text that embeds an identifier in another: `n` and the digits of a
/// number, or `s` and the text.
pub open spec fn encoded_text(v: IdView) -> Seq<char> {
    match v {
        IdView::Num(n) => seq!['n'] + decimal(n as nat),
        IdView::Str(s) => seq!['s'] + s,
    }
}

/// The plain text of an identifier.
pub open spec fn plain_text(v: IdView) -> Seq<char> {
    match v {
        IdView::Num(n) => decimal(n as nat),
        IdView::Str(s) => s,
    }
}

pub open spec fn hex_digit_upper(n: nat) -> char {
    if n < 10 {
        digit_char(n)
    } else if n == 10 {
        'A'
    } else if n == 11 {
        'B'
    } else if n == 12 {
        'C'
    } else if n == 13 {
        'D'
    } else if n == 14 {
        'E'
    } else {
        'F'
    }
}

pub open spec fn is_ascii_alphanumeric(b: u8) -> bool {
    (48 <= b <= 57) || (65 <= b <= 90) || (97 <= b <= 122)
}

/// One byte in a URL path segment: letters and digits stay, every other
/// byte becomes `%` and two upper-case hex digits.
pub open spec fn escaped_byte(b: u8) -> Seq<char> {
    if is_ascii_alphanumeric(b) {
        seq![b as char]
    } else {
        seq!['%', hex_digit_upper((b / 16) as nat), hex_digit_upper((b % 16) as nat)]
    }
}

pub open spec fn percent_encoded(bytes: Seq<u8>) -> Seq<char>
    decreases bytes.len(),
{
    if bytes.len() == 0 {
        Seq::empty()
    } else {
        percent_encoded(bytes.drop_last()) + escaped_byte(bytes.last())
    }
}

/// The identifier that an embedded text stands for.
pub open spec fn decoded_id(s: Seq<char>) -> Result<IdView, Option<NumberError>> {
    if s.len() > 0 && s[0] == 'n' {
        match unsigned_of(s.drop_first(), u64::MAX as nat) {
            Ok(v) => Ok(IdView::Num(v as u64)),
            Err(e) => Err(Some(e)),
        }
    } else if s.len() > 0 && s[0] == 's' {
        Ok(IdView::Str(s.drop_first()))
    } else {
        Err(None)
    }
}

/// Escapes a text for a URL path segment.
/// Relies on percent_encoding::utf8_percent_encode with the NON_ALPHANUMERIC
/// set: ASCII letters and digits pass, every other byte is written as `%XX`.
#[verifier::external_body]
fn percent_encode(s: &str) -> (r: String)
    ensures
        r@ == percent_encoded(encode_utf8(s@)),
{
    percent_encoding::utf8_percent_encode(s, percent_encoding::NON_ALPHANUMERIC).to_string()
}

impl Id {
    /// A copy with the same value.
    pub fn duplicate(&self) -> (r: Id)
        ensures
            r == *self,
    {
        match self {
            Id::Num(n) => Id::Num(*n),
            Id::Str(s) => Id::Str(s.clone()),
        }
    }

    /// The text that embeds this identifier in another one.
    pub fn str_encoded(&self) -> (r: String)
        ensures
            r@ == encoded_text(self@),
    {
        let mut r = String::new();
        match self {
            Id::Num(n) => {
                push_char(&mut r, 'n');
                push_decimal(&mut r, *n);
            },
            Id::Str(s) => {
                push_char(&mut r, 's');
                push_str(&mut r, s.as_str());
            },
        }
        assert(r@ =~= encoded_text(self@));
        r
    }

    /// Reads back an embedded identifier; a text that starts with neither
    /// `n` nor `s` is a broken assumption, not a user's mistake.
    pub fn parse_encoded(s: &str) -> (r: Result<Id, AcariError>)
        ensures
            match decoded_id(s@) {
                Ok(v) => r is Ok && r->Ok_0@ == v,
                Err(Some(e)) => r is Err && r->Err_0 == AcariError::ParseNum(e),
                Err(None) => r is Err && r->Err_0 is InternalError,
            },
    {
        let cs = chars_of(s);
        if cs.len() > 0 && cs[0] == 'n' {
            assert(cs@.subrange(1, cs@.len() as int) =~= s@.drop_first());
            match parse_unsigned(cs.as_slice(), 1, cs.len(), u64::MAX) {
                Ok(v) => Ok(Id::Num(v)),
                Err(e) => Err(AcariError::ParseNum(e)),
            }
        } else if cs.len() > 0 && cs[0] == 's' {
            let rest = string_of(cs.as_slice(), 1, cs.len());
            assert(rest@ =~= s@.drop_first());
            Ok(Id::Str(rest))
        } else {
            Err(AcariError::InternalError(String::from_str("Invalid id format")))
        }
    }

    /// The identifier as a URL path segment.
    pub fn path_encoded(&self) -> (r: String)
        ensures
            self@ is Num ==> r@ == plain_text(self@),
            self matches Id::Str(s) ==> r@ == percent_encoded(encode_utf8(s@)),
    {
        match self {
            Id::Num(n) => {
                let mut r = String::new();
                push_decimal(&mut r, *n);
                assert(r@ =~= plain_text(self@));
                r
            },
            Id::Str(s) => percent_encode(s.as_str()),
        }
    }

    /// The plain text of the identifier.
    pub fn to_string(&self) -> (r: String)
        ensures
            r@ == plain_text(self@),
    {
        match self {
            Id::Num(n) => {
                let mut r = String::new();
                push_decimal(&mut r, *n);
                assert(r@ =~= plain_text(self@));
                r
            },
            Id::Str(s) => s.clone(),
        }
    }
}

impl Default for Id {
    fn default() -> (r: Id)
        ensures
            r@ == IdView::Num(0),
    {
        Id::Num(0)
    }
}

/// The embedding text of an identifier reads back as that identifier.
pub proof fn lemma_encoded_id_round_trip(v: IdView)
    ensures
        decoded_id(encoded_text(v)) == Ok::<IdView, Option<NumberError>>(v),
{
    match v {
        IdView::Num(n) => {
            let t = encoded_text(v);
            lemma_decimal_digits(n as nat);
            assert(t.drop_first() =~= decimal(n as nat));
            assert(is_digit(decimal(n as nat)[0]));
            assert(unsigned_digits(decimal(n as nat)) == decimal(n as nat));
        },
        IdView::Str(s) => {
            assert(encoded_text(v).drop_first() =~= s);
        },
    }
}

} // verus!
