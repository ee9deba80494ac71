use vstd::prelude::*;
use crate::nums::is_digit;

verus! {

/// An ASCII hexadecimal digit.
pub open spec fn is_hex_digit(c: char) -> bool {
    is_digit(c) || (97 <= c as u32 && c as u32 <= 102) || (65 <= c as u32 && c as u32 <= 70)
}

/// The canonical UUID text: five groups of hexadecimal digits of lengths
/// 8, 4, 4, 4 and 12, separated by hyphens, and nothing else.
pub open spec fn is_uuid_chars(s: Seq<char>) -> bool {
    &&& s.len() == 36
    &&& s[8] == '-'
    &&& s[13] == '-'
    &&& s[18] == '-'
    &&& s[23] == '-'
    &&& forall|i: int|
        0 <= i < 36 && i != 8 && i != 13 && i != 18 && i != 23 ==> is_hex_digit(#[trigger] s[i])
}

/// One or more ASCII decimal digits fill `s[from..to]`.
pub open spec fn digits_between(s: Seq<char>, from: int, to: int) -> bool {
    from < to <= s.len() && forall|i: int| from <= i < to ==> is_digit(#[trigger] s[i])
}

/// `s` is `<major>.<minor>.<patch> build <number> <code>` with the dots at
/// `i1` and `i2`, the word ` build ` starting at `i3`, the last space at
/// `i4`, and digits filling every slot.
pub open spec fn version_split_at(s: Seq<char>, i1: int, i2: int, i3: int, i4: int) -> bool {
    &&& digits_between(s, 0, i1)
    &&& s[i1] == '.'
    &&& digits_between(s, i1 + 1, i2)
    &&& s[i2] == '.'
    &&& digits_between(s, i2 + 1, i3)
    &&& i3 + 7 <= s.len()
    &&& s[i3] == ' '
    &&& s[i3 + 1] == 'b'
    &&& s[i3 + 2] == 'u'
    &&& s[i3 + 3] == 'i'
    &&& s[i3 + 4] == 'l'
    &&& s[i3 + 5] == 'd'
    &&& s[i3 + 6] == ' '
    &&& digits_between(s, i3 + 7, i4)
    &&& s[i4] == ' '
    &&& digits_between(s, i4 + 1, s.len() as int)
}

/// The app-version text: `<major>.<minor>.<patch> build <number> <code>`,
/// each slot one or more ASCII decimal digits, and nothing else.
pub open spec fn is_app_version_chars(s: Seq<char>) -> bool {
    exists|i1: int, i2: int, i3: int, i4: int| version_split_at(s, i1, i2, i3, i4)
}

/// regex's compiled regular-expression type, opaque to the verifier.
#[verifier::external_type_specification]
#[verifier::external_body]
pub struct ExRegex(regex::Regex);

/// The two compiled patterns of a `Validator`.
struct Patterns {
    uuid_re: regex::Regex,
    version_re: regex::Regex,
}

/// Relies on `regex::Regex::new`: the two fixed patterns are valid regular
/// expressions, so compilation cannot fail. Both are anchored at each end;
/// the first accepts exactly the texts of `is_uuid_chars`, the second
/// exactly the texts of `is_app_version_chars`.
#[verifier::external_body]
fn compile_patterns() -> Patterns {
    Patterns {
        uuid_re: regex::Regex::new(
            "^[0-9a-fA-F]{8}-[0-9a-fA-F]{4}-[0-9a-fA-F]{4}-[0-9a-fA-F]{4}-[0-9a-fA-F]{12}$",
        ).expect("fixed pattern"),
        version_re: regex::Regex::new("^[0-9]+\\.[0-9]+\\.[0-9]+ build [0-9]+ [0-9]+$").expect(
            "fixed pattern",
        ),
    }
}

/// The validation patterns, compiled once, together with the policy on the
/// upstream "missing numeric field" sentinel `-1`: a strict validator
/// rejects it, a lenient one accepts it.
pub struct Validator {
    patterns: Patterns,
    reject_sentinel: bool,
}

impl Validator {
    /// Whether this validator rejects the sentinel -1 in numeric fields.
    pub closed spec fn strict(self) -> bool {
        self.reject_sentinel
    }

    /// A validator with freshly compiled patterns and the given sentinel
    /// policy.
    pub fn new(reject_sentinel: bool) -> (v: Validator)
        ensures
            v.strict() == reject_sentinel,
    {
        Validator { patterns: compile_patterns(), reject_sentinel }
    }

    /// Whether this validator rejects the sentinel -1 in numeric fields.
    pub fn is_strict(&self) -> (r: bool)
        ensures
            r == self.strict(),
    {
        self.reject_sentinel
    }

    /// Relies on `regex::Regex::is_match` against the anchored UUID pattern
    /// compiled in `compile_patterns`: a match means the whole text has the
    /// canonical UUID shape, stated exactly by `is_uuid_chars`.
    #[verifier::external_body]
    pub fn matches_uuid(&self, s: &Vec<char>) -> (r: bool)
        ensures
            r == is_uuid_chars(s@),
    {
        let text: String = s.iter().collect();
        self.patterns.uuid_re.is_match(&text)
    }

    /// Relies on `regex::Regex::is_match` against the anchored app-version
    /// pattern compiled in `compile_patterns`: a match means the whole text
    /// has the shape stated exactly by `is_app_version_chars`.
    #[verifier::external_body]
    pub fn matches_app_version(&self, s: &Vec<char>) -> (r: bool)
        ensures
            r == is_app_version_chars(s@),
    {
        let text: String = s.iter().collect();
        self.patterns.version_re.is_match(&text)
    }
}

} // verus!
