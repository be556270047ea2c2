//! What the schema registry answers, and the addresses it is asked at.

use vstd::prelude::*;
use vstd::string::StringExecFns;

verus! {

/// A named reference from one registered schema to another.
#[derive(Debug, Clone, PartialEq)]
pub struct Reference {
    pub name: String,
    pub subject: String,
    pub version: i32,
}

/// One registered version of a subject: its id, schema text, schema type and
/// the references it makes.
#[derive(Debug, Clone, PartialEq)]
pub struct Subject {
    pub id: i32,
    pub schema: String,
    pub schema_type: String,
    pub references: Option<Vec<Reference>>,
}

pub open spec fn digit_char(d: int) -> char {
    if d == 0 { '0' }
    else if d == 1 { '1' }
    else if d == 2 { '2' }
    else if d == 3 { '3' }
    else if d == 4 { '4' }
    else if d == 5 { '5' }
    else if d == 6 { '6' }
    else if d == 7 { '7' }
    else if d == 8 { '8' }
    else { '9' }
}

/// The decimal digits of a natural number, most significant first.
pub open spec fn digits_of(n: nat) -> Seq<char>
    decreases n,
{
    if n < 10 {
        seq![digit_char(n as int)]
    } else {
        digits_of(n / 10).push(digit_char((n % 10) as int))
    }
}

/// The decimal text of an integer, with a leading `-` when negative.
pub open spec fn decimal_of(v: int) -> Seq<char> {
    if v < 0 {
        seq!['-'] + digits_of((-v) as nat)
    } else {
        digits_of(v as nat)
    }
}

/// Relies on `ToString` through `i32`'s `Display`: the decimal digits, with a
/// leading `-` for a negative number.
#[verifier::external_body]
fn int_text(v: i32) -> (r: String)
    ensures
        r@ == decimal_of(v as int),
{
    v.to_string()
}

/// The address that lists a subject's versions.
pub fn sr_versions_url(base_url: &str, subject: &str) -> (r: String)
    ensures
        r@ == base_url@ + "/subjects/"@ + subject@ + "-value/versions"@,
{
    base_url.to_string().concat("/subjects/").concat(subject).concat("-value/versions")
}

/// The address of one version of a subject.
pub fn sr_schema_url(base_url: &str, subject: &str, version: i32) -> (r: String)
    ensures
        r@ == base_url@ + "/subjects/"@ + subject@ + "-value/versions/"@ + decimal_of(version as int),
{
    let v = int_text(version);
    base_url.to_string().concat("/subjects/").concat(subject).concat("-value/versions/").concat(v.as_str())
}

pub open spec fn value_suffix() -> Seq<char> {
    seq!['-', 'v', 'a', 'l', 'u', 'e']
}

/// A subject name without the `-value` suffix that registries add.
pub open spec fn bare_subject(s: Seq<char>) -> Seq<char> {
    if s.len() >= 6 && s.subrange(s.len() - 6, s.len() as int) == value_suffix() {
        s.subrange(0, s.len() - 6)
    } else {
        s
    }
}

/// Drops a trailing `-value` from a subject name, if it has one.
pub fn strip_value_suffix(subject: &str) -> (r: String)
    ensures
        r@ == bare_subject(subject@),
{
    let n = subject.unicode_len();
    if n < 6 {
        return subject.to_string();
    }
    let suffix = ['-', 'v', 'a', 'l', 'u', 'e'];
    let mut i: usize = 0;
    while i < 6
        invariant
            0 <= i <= 6,
            n == subject@.len(),
            n >= 6,
            suffix@ == value_suffix(),
            forall|j: int| 0 <= j < i ==> subject@[n - 6 + j] == value_suffix()[j],
        decreases 6 - i,
    {
        if subject.get_char(n - 6 + i) != suffix[i] {
            proof {
                assert(subject@.subrange(n - 6, n as int)[i as int] != value_suffix()[i as int]);
            }
            return subject.to_string();
        }
        i = i + 1;
    }
    proof {
        assert(subject@.subrange(n - 6, n as int) =~= value_suffix());
    }
    subject.substring_char(0, n - 6).to_string()
}

} // verus!
