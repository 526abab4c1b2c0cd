//! The credential classifiers: which shape a user name has.

use crate::pattern::{pattern_accepted, pattern_found, search};
use crate::text::{
    all_digits, alnum, ascii_lower, contains, contains_sub, digit, digit_value, is_alnum, is_digit,
    occurs_at, to_chars,
};
use vstd::prelude::*;

verus! {

/// The expression that an e-mail address has to match as a whole.
pub const EMAIL_PATTERN: &'static str = "^[a-zA-Z0-9_.+-]+@[a-zA-Z0-9-]+\\.[a-zA-Z0-9-.]+$";

/// The token that stands for a user name that was never recorded.
pub const PLACEHOLDER: &'static str = "MISSING-USER";

/// The kind of credential that a run keeps.
#[derive(Clone, Copy, Debug, PartialEq, Eq, Structural)]
pub enum CredType {
    All,
    Email,
    Numeric,
    User,
    Rut,
}

impl CredType {
    /// The name of the kind, as it appears in file names.
    pub open spec fn name(self) -> Seq<char> {
        match self {
            CredType::All => "all"@,
            CredType::Email => "email"@,
            CredType::Numeric => "numeric"@,
            CredType::User => "user"@,
            CredType::Rut => "rut"@,
        }
    }

    /// Whether a user name is kept under this kind, given which of the four
    /// shapes it has: `All` keeps any shape, every other kind its own.
    pub open spec fn admits_spec(self, email: bool, numeric: bool, user: bool, rut: bool) -> bool {
        match self {
            CredType::All => email || numeric || user || rut,
            CredType::Email => email,
            CredType::Numeric => numeric,
            CredType::User => user,
            CredType::Rut => rut,
        }
    }

    /// The name of the kind, as it appears in file names.
    pub fn as_str(&self) -> (r: &'static str)
        ensures
            r@ == self.name(),
    {
        match self {
            CredType::All => "all",
            CredType::Email => "email",
            CredType::Numeric => "numeric",
            CredType::User => "user",
            CredType::Rut => "rut",
        }
    }

    /// Whether a user name is kept under this kind, given which of the four
    /// shapes it has.
    pub fn admits(&self, email: bool, numeric: bool, user: bool, rut: bool) -> (r: bool)
        ensures
            r == self.admits_spec(email, numeric, user, rut),
    {
        match self {
            CredType::All => email || numeric || user || rut,
            CredType::Email => email,
            CredType::Numeric => numeric,
            CredType::User => user,
            CredType::Rut => rut,
        }
    }
}

/// `user` holds the placeholder for a missing user name.
pub open spec fn has_placeholder(user: Seq<char>) -> bool {
    contains_sub(user, PLACEHOLDER@)
}

/// `user` is an e-mail address: it holds no placeholder and matches
/// `EMAIL_PATTERN`.
pub open spec fn email_shape(user: Seq<char>) -> bool {
    !has_placeholder(user) && pattern_accepted(EMAIL_PATTERN@) && pattern_found(
        EMAIL_PATTERN@,
        user,
    )
}

/// `user` is a number of at least `min_len` digits.
pub open spec fn numeric_shape(user: Seq<char>, min_len: int) -> bool {
    all_digits(user) && user.len() >= min_len
}

/// A character that a handle may hold: an ASCII letter or digit, `_` or `.`.
pub open spec fn is_handle_char(c: char) -> bool {
    is_alnum(c) || c == '_' || c == '.'
}

/// Every character of `s` may stand in a handle.
pub open spec fn all_handle_chars(s: Seq<char>) -> bool {
    forall|i: int| 0 <= i < s.len() ==> is_handle_char(#[trigger] s[i])
}

/// `user` is a handle: at least `min_len` characters, each a letter, a digit,
/// `_` or `.`, not all of them digits, with no `@` and no placeholder.
pub open spec fn handle_shape(user: Seq<char>, min_len: int) -> bool {
    &&& !user.contains('@')
    &&& !has_placeholder(user)
    &&& user.len() >= min_len
    &&& all_handle_chars(user)
    &&& !all_digits(user)
}

/// A character that can close a national identifier: a digit, `k` or `K`.
pub open spec fn is_check_char(c: char) -> bool {
    is_digit(c) || c == 'k' || c == 'K'
}

/// The part of a national identifier before its check character: all but
/// the last character, and without the `-` that may stand before it.
pub open spec fn rut_body(user: Seq<char>) -> Seq<char> {
    if user.len() >= 2 && user[user.len() - 2] == '-' {
        user.subrange(0, user.len() - 2)
    } else {
        user.subrange(0, user.len() - 1)
    }
}

/// `user` is a national identifier: a digit body of `min_len` to `max_len`
/// digits, an optional `-`, and one check character. With `strict`, the check
/// character is the one that the body's checksum gives, in either case.
pub open spec fn rut_shape(user: Seq<char>, strict: bool, min_len: int, max_len: int) -> bool {
    &&& user.len() >= 1
    &&& all_digits(rut_body(user))
    &&& min_len <= rut_body(user).len() <= max_len
    &&& is_check_char(user.last())
    &&& strict ==> ascii_lower(user.last()) == check_char(rut_body(user))
}

/// Whether a user name is kept under `kind`.
pub open spec fn credential_shape(
    user: Seq<char>,
    kind: CredType,
    strict: bool,
    min_numeric_len: int,
    min_user_len: int,
    min_rut_len: int,
    max_rut_len: int,
) -> bool {
    kind.admits_spec(
        email_shape(user),
        numeric_shape(user, min_numeric_len),
        handle_shape(user, min_user_len),
        rut_shape(user, strict, min_rut_len, max_rut_len),
    )
}

/// What is said of an e-mail candidate once the search has been made: it is
/// kept where it holds no placeholder and the search found a match.
pub fn email_verdict(placeholder: bool, found: Option<bool>) -> (r: bool)
    ensures
        r == (!placeholder && found == Some(true)),
{
    match found {
        Some(hit) => !placeholder && hit,
        None => false,
    }
}

/// Whether `user` holds the placeholder for a missing user name.
pub fn holds_placeholder(user: &str) -> (r: bool)
    ensures
        r == has_placeholder(user@),
{
    let hay = to_chars(user);
    let needle = to_chars(PLACEHOLDER);
    contains(&hay, &needle)
}

/// Whether `user` is an e-mail address: it matches `EMAIL_PATTERN` as a whole
/// and holds no placeholder. The match is made by the `regex` crate; a
/// pattern that it refuses matches nothing.
pub fn is_valid_email(user: &str) -> (r: bool)
    ensures
        r == email_shape(user@),
{
    let placeholder = holds_placeholder(user);
    if placeholder {
        return false;
    }
    email_verdict(placeholder, search(EMAIL_PATTERN, user))
}

/// Whether `user` is a number: ASCII digits only, at least `min_numeric_len`
/// of them.
pub fn is_valid_numeric(user: &str, min_numeric_len: usize) -> (r: bool)
    ensures
        r == numeric_shape(user@, min_numeric_len as int),
{
    let v = to_chars(user);
    assert(v@.subrange(0, v@.len() as int) == v@);
    digits_only(&v, 0, v.len()) && v.len() >= min_numeric_len
}

/// A sequence of handle characters holds neither `@` nor the placeholder.
pub proof fn lemma_handle_chars_exclude(user: Seq<char>)
    requires
        all_handle_chars(user),
    ensures
        !user.contains('@'),
        !has_placeholder(user),
{
    reveal_strlit("MISSING-USER");
    assert forall|i: int| !occurs_at(user, PLACEHOLDER@, i) by {
        if occurs_at(user, PLACEHOLDER@, i) {
            assert(user.subrange(i, i + 12)[7] == '-');
            assert(is_handle_char(user[i + 7]));
        }
    }
    if user.contains('@') {
        let i = choose|i: int| 0 <= i < user.len() && user[i] == '@';
        assert(is_handle_char(user[i]));
    }
}

/// Whether `user` is a handle: at least `min_user_len` characters, each an
/// ASCII letter or digit, `_` or `.`, and not all of them digits. Such a name
/// holds neither `@` nor the placeholder.
pub fn is_valid_user(user: &str, min_user_len: usize) -> (r: bool)
    ensures
        r == handle_shape(user@, min_user_len as int),
{
    let v = to_chars(user);
    let mut other: bool = false;
    let mut i: usize = 0;
    while i < v.len()
        invariant
            i <= v.len(),
            v@ == user@,
            all_handle_chars(v@.subrange(0, i as int)),
            other == !all_digits(v@.subrange(0, i as int)),
        decreases v.len() - i,
    {
        let c = v[i];
        if !(alnum(c) || c == '_' || c == '.') {
            assert(!is_handle_char(user@[i as int]));
            return false;
        }
        let ghost before = v@.subrange(0, i as int);
        let ghost after = v@.subrange(0, i + 1);
        assert forall|j: int| 0 <= j < after.len() implies is_handle_char(
            #[trigger] after[j],
        ) by {
            if j < i {
                assert(before[j] == after[j]);
            }
        }
        proof {
            if all_digits(after) {
                assert forall|j: int| 0 <= j < before.len() implies is_digit(
                    #[trigger] before[j],
                ) by {
                    assert(before[j] == after[j]);
                }
                assert(is_digit(after[i as int]));
            }
            if all_digits(before) && is_digit(c) {
                assert forall|j: int| 0 <= j < after.len() implies is_digit(
                    #[trigger] after[j],
                ) by {
                    if j < i {
                        assert(before[j] == after[j]);
                    }
                }
            }
        }
        if !digit(c) {
            other = true;
        }
        i += 1;
    }
    proof {
        assert(v@.subrange(0, v@.len() as int) == v@);
        lemma_handle_chars_exclude(user@);
    }
    other && v.len() >= min_user_len
}

/// The weight of the digit that stands `k` places from the right: 2, 3, 4, 5,
/// 6, 7 and then 2 again.
pub open spec fn weight(k: int) -> int {
    2 + k % 6
}

/// The sum of the digits of `body`, each multiplied by the weight of its
/// place.
pub open spec fn weighted_sum(body: Seq<char>) -> int
    decreases body.len(),
{
    if body.len() == 0 {
        0
    } else {
        digit_value(body[0]) * weight(body.len() - 1) + weighted_sum(body.drop_first())
    }
}

/// The check character that belongs to a weighted sum.
pub open spec fn check_char_of(sum: int) -> char {
    let r = 11 - sum % 11;
    if r == 11 {
        '0'
    } else if r == 10 {
        'k'
    } else {
        (('0' as u32) + r) as char
    }
}

/// The check character of the digit body `body`, in lower case.
pub open spec fn check_char(body: Seq<char>) -> char {
    check_char_of(weighted_sum(body))
}

/// The check character of the digit string `num`, or `None` where `num` holds
/// anything but ASCII digits.
pub fn rut_dv(num: &str) -> (r: Option<char>)
    ensures
        r == (if all_digits(num@) {
            Some(check_char(num@))
        } else {
            None
        }),
{
    let body = to_chars(num);
    if !digits_only(&body, 0, body.len()) {
        return None;
    }
    assert(num@.subrange(0, num@.len() as int) == num@);
    Some(check_of(&body, 0, body.len()))
}

/// Whether `v[from..to]` holds ASCII digits only.
pub(crate) fn digits_only(v: &Vec<char>, from: usize, to: usize) -> (r: bool)
    requires
        from <= to <= v.len(),
    ensures
        r == all_digits(v@.subrange(from as int, to as int)),
{
    let mut i: usize = from;
    while i < to
        invariant
            from <= i <= to <= v.len(),
            all_digits(v@.subrange(from as int, i as int)),
        decreases to - i,
    {
        if !digit(v[i]) {
            assert(v@.subrange(from as int, to as int)[i - from] == v@[i as int]);
            return false;
        }
        i += 1;
        assert forall|j: int| 0 <= j < i - from implies is_digit(
            #[trigger] v@.subrange(from as int, i as int)[j],
        ) by {
            if j < i - 1 - from {
                assert(v@.subrange(from as int, i - 1)[j] == v@.subrange(from as int, i as int)[j]);
            }
        }
    }
    true
}

/// Adding a term to a sum and to its remainder gives the same remainder.
proof fn lemma_sum_step(acc: int, term: int, rest: int)
    requires
        rest >= 0,
        term >= 0,
        acc == rest % 11,
    ensures
        (acc + term) % 11 == (term + rest) % 11,
{
}

/// The weight one place further left is the next in the cycle.
proof fn lemma_weight_step(k: int)
    requires
        k >= 0,
    ensures
        weight(k + 1) == (if weight(k) == 7 {
            2
        } else {
            weight(k) + 1
        }),
        2 <= weight(k) <= 7,
{
}

/// The check character of the digits `v[from..to]`.
pub(crate) fn check_of(v: &Vec<char>, from: usize, to: usize) -> (r: char)
    requires
        from <= to <= v.len(),
        all_digits(v@.subrange(from as int, to as int)),
    ensures
        r == check_char(v@.subrange(from as int, to as int)),
{
    let mut acc: u32 = 0;
    let mut mul: u32 = 2;
    let mut i: usize = to;
    while i > from
        invariant
            from <= i <= to <= v.len(),
            all_digits(v@.subrange(from as int, to as int)),
            acc < 11,
            acc == weighted_sum(v@.subrange(i as int, to as int)) % 11,
            weighted_sum(v@.subrange(i as int, to as int)) >= 0,
            mul == weight(to - i),
        decreases i - from,
    {
        i -= 1;
        let c = v[i];
        assert(v@.subrange(from as int, to as int)[i - from] == c);
        let d: u32 = (c as u32) - ('0' as u32);
        assert(d * mul <= 63) by (nonlinear_arith)
            requires
                d <= 9,
                mul <= 7,
        ;
        let term: u32 = d * mul;
        proof {
            let cur = v@.subrange(i as int, to as int);
            assert(cur.drop_first() == v@.subrange(i + 1, to as int));
            lemma_sum_step(acc as int, term as int, weighted_sum(cur.drop_first()));
            lemma_weight_step(to - i - 1);
        }
        acc = (acc + term) % 11;
        mul = if mul == 7 {
            2
        } else {
            mul + 1
        };
    }
    let res: u32 = 11 - acc;
    if res == 11 {
        '0'
    } else if res == 10 {
        'k'
    } else {
        ((res as u8) + 48u8) as char
    }
}

/// Whether `user` is a national identifier: `min_rut_len` to `max_rut_len`
/// digits, then an optional `-`, then one check character, which is a digit,
/// `k` or `K`. With `require_valid_dv` the check character has to be the one
/// that the checksum of the digits gives; the case of `k` does not matter.
pub fn is_rut(user: &str, require_valid_dv: bool, min_rut_len: usize, max_rut_len: usize) -> (r:
    bool)
    ensures
        r == rut_shape(user@, require_valid_dv, min_rut_len as int, max_rut_len as int),
{
    let v = to_chars(user);
    let n = v.len();
    if n == 0 {
        return false;
    }
    let last = v[n - 1];
    let end: usize = if n >= 2 && v[n - 2] == '-' {
        n - 2
    } else {
        n - 1
    };
    assert(rut_body(user@) == v@.subrange(0, end as int));
    if end < min_rut_len || end > max_rut_len {
        return false;
    }
    if !digits_only(&v, 0, end) {
        return false;
    }
    if !(digit(last) || last == 'k' || last == 'K') {
        return false;
    }
    if require_valid_dv {
        let lowered = if last == 'K' {
            'k'
        } else {
            last
        };
        lowered == check_of(&v, 0, end)
    } else {
        true
    }
}

/// Whether `user` is kept under `cred_type`: under `All` where it has any of
/// the four shapes, under another kind where it has that kind's shape.
pub fn is_valid_credential(
    user: &str,
    cred_type: &CredType,
    only_valid_rut: bool,
    min_numeric_len: usize,
    min_user_len: usize,
    min_rut_len: usize,
    max_rut_len: usize,
) -> (r: bool)
    ensures
        r == credential_shape(
            user@,
            *cred_type,
            only_valid_rut,
            min_numeric_len as int,
            min_user_len as int,
            min_rut_len as int,
            max_rut_len as int,
        ),
{
    match cred_type {
        CredType::All => is_valid_email(user) || is_valid_numeric(user, min_numeric_len)
            || is_valid_user(user, min_user_len) || is_rut(
            user,
            only_valid_rut,
            min_rut_len,
            max_rut_len,
        ),
        CredType::Email => is_valid_email(user),
        CredType::Numeric => is_valid_numeric(user, min_numeric_len),
        CredType::User => is_valid_user(user, min_user_len),
        CredType::Rut => is_rut(user, only_valid_rut, min_rut_len, max_rut_len),
    }
}

/// The thresholds of classification.
#[derive(Clone, Copy, Debug, PartialEq, Eq, Structural)]
pub struct ClassificationConfig {
    /// The least number of digits of a numeric user name.
    pub min_numeric_len: usize,
    /// The least number of characters of a handle.
    pub min_user_len: usize,
    /// The least number of bytes of a password.
    pub min_pass_len: usize,
    /// The least number of digits in the body of a national identifier.
    pub min_rut_len: usize,
    /// The greatest number of digits in the body of a national identifier.
    pub max_rut_len: usize,
    /// Whether a national identifier has to carry the check character that
    /// its checksum gives.
    pub strict_checksum: bool,
}

impl Default for ClassificationConfig {
    fn default() -> (r: Self)
        ensures
            r == (ClassificationConfig {
                min_numeric_len: 7,
                min_user_len: 4,
                min_pass_len: 4,
                min_rut_len: 7,
                max_rut_len: 8,
                strict_checksum: false,
            }),
    {
        ClassificationConfig {
            min_numeric_len: 7,
            min_user_len: 4,
            min_pass_len: 4,
            min_rut_len: 7,
            max_rut_len: 8,
            strict_checksum: false,
        }
    }
}

impl ClassificationConfig {
    /// Whether `user` is kept under `kind` with these thresholds.
    pub open spec fn admits(self, user: Seq<char>, kind: CredType) -> bool {
        credential_shape(
            user,
            kind,
            self.strict_checksum,
            self.min_numeric_len as int,
            self.min_user_len as int,
            self.min_rut_len as int,
            self.max_rut_len as int,
        )
    }

    /// Whether `user` is kept under the selection `filter`: under any of its
    /// kinds, and under any kind at all where nothing is selected.
    pub open spec fn accepts_spec(self, user: Seq<char>, filter: Seq<CredType>) -> bool {
        if filter.len() == 0 {
            self.admits(user, CredType::All)
        } else {
            exists|i: int| 0 <= i < filter.len() && self.admits(user, #[trigger] filter[i])
        }
    }

    /// Whether `user` is kept under the selection `filter`. Several kinds
    /// widen the selection; none selects every kind.
    pub fn accepts(&self, user: &str, filter: &Vec<CredType>) -> (r: bool)
        ensures
            r == self.accepts_spec(user@, filter@),
    {
        if filter.len() == 0 {
            return is_valid_credential(
                user,
                &CredType::All,
                self.strict_checksum,
                self.min_numeric_len,
                self.min_user_len,
                self.min_rut_len,
                self.max_rut_len,
            );
        }
        let mut i: usize = 0;
        while i < filter.len()
            invariant
                i <= filter.len(),
                forall|j: int| 0 <= j < i ==> !self.admits(user@, #[trigger] filter@[j]),
            decreases filter.len() - i,
        {
            if is_valid_credential(
                user,
                &filter[i],
                self.strict_checksum,
                self.min_numeric_len,
                self.min_user_len,
                self.min_rut_len,
                self.max_rut_len,
            ) {
                return true;
            }
            i += 1;
        }
        false
    }
}

/// With the checksum required, a digit body of an accepted length takes one
/// check character and no other: the one its weighted sum gives, written in
/// either case, whether or not a `-` stands before it.
pub proof fn lemma_strict_check_char(body: Seq<char>, c: char, min_len: int, max_len: int)
    requires
        all_digits(body),
        min_len <= body.len() <= max_len,
    ensures
        rut_shape(body.push(c), true, min_len, max_len) <==> ascii_lower(c) == check_char(body),
        rut_shape(body.push('-').push(c), true, min_len, max_len) <==> ascii_lower(c)
            == check_char(body),
{
    let plain = body.push(c);
    let dashed = body.push('-').push(c);
    if body.len() > 0 {
        assert(is_digit(body[body.len() - 1]));
    }
    assert(rut_body(plain) == body);
    assert(rut_body(dashed) == body);
    let r = 11 - weighted_sum(body) % 11;
    assert(1 <= r <= 11);
}

/// No two characters that differ in more than case close the same digit body
/// when the checksum is required.
pub proof fn lemma_strict_check_char_unique(
    body: Seq<char>,
    c1: char,
    c2: char,
    min_len: int,
    max_len: int,
)
    requires
        rut_shape(body.push(c1), true, min_len, max_len),
        rut_shape(body.push(c2), true, min_len, max_len),
        all_digits(body),
    ensures
        ascii_lower(c1) == ascii_lower(c2),
{
    if body.len() > 0 {
        assert(is_digit(body[body.len() - 1]));
    }
    assert(rut_body(body.push(c1)) == body);
    assert(rut_body(body.push(c2)) == body);
}

} // verus!
