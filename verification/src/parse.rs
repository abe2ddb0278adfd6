//! The character classes of HTTP messages (RFC 9110 section 5, RFC 9112
//! section 3.2) and the checks made of them.
use vstd::prelude::*;

use crate::text::{HTAB, SP};

verus! {

/// `ALPHA / DIGIT`.
pub open spec fn is_alphanumeric(b: u8) -> bool {
    48 <= b <= 57 || 65 <= b <= 90 || 97 <= b <= 122
}

/// `tchar` (RFC 9110 section 5.6.2): a letter, a digit or one of
/// ``!#$%&'*+-.^_`|~``.
pub open spec fn is_tchar(b: u8) -> bool {
    is_alphanumeric(b) || b == '!' as u8 || b == '#' as u8 || b == '$' as u8 || b == '%' as u8 || b
        == '&' as u8 || b == '\'' as u8 || b == '*' as u8 || b == '+' as u8 || b == '-' as u8 || b
        == '.' as u8 || b == '^' as u8 || b == '_' as u8 || b == '`' as u8 || b == '|' as u8 || b
        == '~' as u8
}

/// `field-vchar` (RFC 9110 section 5.5): a visible ASCII character or
/// `obs-text`.
pub open spec fn is_field_vchar(b: u8) -> bool {
    33 <= b <= 126 || b >= 128
}

/// A byte that may stand in a field value or a reason phrase.
pub open spec fn is_field_byte(b: u8) -> bool {
    is_field_vchar(b) || b == SP || b == HTAB
}

/// A visible ASCII character.
pub open spec fn is_vchar(b: u8) -> bool {
    33 <= b <= 126
}

/// `pchar / "/" / "?"` (RFC 3986 section 3.3), where `%` stands for the start
/// of a percent-encoded byte.
pub open spec fn is_path_byte(b: u8) -> bool {
    is_alphanumeric(b) || b == '-' as u8 || b == '.' as u8 || b == '_' as u8 || b == '~' as u8 || b
        == '%' as u8 || b == '!' as u8 || b == '$' as u8 || b == '&' as u8 || b == '\'' as u8 || b
        == '(' as u8 || b == ')' as u8 || b == '*' as u8 || b == '+' as u8 || b == ',' as u8 || b
        == ';' as u8 || b == '=' as u8 || b == ':' as u8 || b == '@' as u8 || b == '/' as u8 || b
        == '?' as u8
}

/// Every byte is a `tchar`.
pub open spec fn all_tchars(s: Seq<u8>) -> bool {
    forall|i: int| 0 <= i < s.len() ==> is_tchar(#[trigger] s[i])
}

/// `field-name = 1*tchar`.
pub open spec fn is_field_name(s: Seq<u8>) -> bool {
    s.len() > 0 && all_tchars(s)
}

/// The bytes of a field value, which may be empty.
pub open spec fn is_field_value(s: Seq<u8>) -> bool {
    forall|i: int| 0 <= i < s.len() ==> is_field_byte(#[trigger] s[i])
}

/// A request target: visible ASCII characters, at least one.
pub open spec fn is_request_target(s: Seq<u8>) -> bool {
    s.len() > 0 && forall|i: int| 0 <= i < s.len() ==> is_vchar(#[trigger] s[i])
}

/// Every byte may stand in a path or a query.
pub open spec fn all_path_bytes(s: Seq<u8>) -> bool {
    forall|i: int| 0 <= i < s.len() ==> is_path_byte(#[trigger] s[i])
}

/// `origin-form = absolute-path [ "?" query ]` (RFC 9112 section 3.2.1).
pub open spec fn is_origin_form(s: Seq<u8>) -> bool {
    s.len() > 0 && s[0] == '/' as u8 && all_path_bytes(s)
}

/// Why a request target is not in origin-form.
#[derive(Debug, Clone, Copy, PartialEq, Eq, Structural)]
pub enum OriginFormError {
    /// The target does not start with a slash.
    NotAbsolutePath,
    /// The target has a byte that neither a path nor a query may hold.
    InvalidCharacter,
}

fn alphanumeric(b: u8) -> (r: bool)
    ensures
        r == is_alphanumeric(b),
{
    (b >= 48 && b <= 57) || (b >= 65 && b <= 90) || (b >= 97 && b <= 122)
}

/// Whether `b` is a `tchar`.
pub fn is_valid_tchar(b: u8) -> (r: bool)
    ensures
        r == is_tchar(b),
{
    alphanumeric(b) || b == '!' as u8 || b == '#' as u8 || b == '$' as u8 || b == '%' as u8 || b
        == '&' as u8 || b == '\'' as u8 || b == '*' as u8 || b == '+' as u8 || b == '-' as u8 || b
        == '.' as u8 || b == '^' as u8 || b == '_' as u8 || b == '`' as u8 || b == '|' as u8 || b
        == '~' as u8
}

/// Whether `b` is a `field-vchar`.
pub fn is_valid_field_vchar(b: u8) -> (r: bool)
    ensures
        r == is_field_vchar(b),
{
    (b >= 33 && b <= 126) || b >= 128
}

fn path_byte(b: u8) -> (r: bool)
    ensures
        r == is_path_byte(b),
{
    alphanumeric(b) || b == '-' as u8 || b == '.' as u8 || b == '_' as u8 || b == '~' as u8 || b
        == '%' as u8 || b == '!' as u8 || b == '$' as u8 || b == '&' as u8 || b == '\'' as u8 || b
        == '(' as u8 || b == ')' as u8 || b == '*' as u8 || b == '+' as u8 || b == ',' as u8 || b
        == ';' as u8 || b == '=' as u8 || b == ':' as u8 || b == '@' as u8 || b == '/' as u8 || b
        == '?' as u8
}

/// Whether every byte of `s` is a `tchar`.
pub fn is_all_tchars(s: &[u8]) -> (r: bool)
    ensures
        r == all_tchars(s@),
{
    let mut i: usize = 0;
    while i < s.len()
        invariant
            i <= s@.len(),
            forall|j: int| 0 <= j < i ==> is_tchar(#[trigger] s@[j]),
        decreases s@.len() - i,
    {
        if !is_valid_tchar(s[i]) {
            assert(!is_tchar(s@[i as int]));
            return false;
        }
        i = i + 1;
    }
    true
}

/// Whether `s` is a field name.
pub fn is_valid_field_name(s: &[u8]) -> (r: bool)
    ensures
        r == is_field_name(s@),
{
    s.len() > 0 && is_all_tchars(s)
}

/// Whether `s` may stand as a field value.
pub fn is_valid_field_value(s: &[u8]) -> (r: bool)
    ensures
        r == is_field_value(s@),
{
    let mut i: usize = 0;
    while i < s.len()
        invariant
            i <= s@.len(),
            forall|j: int| 0 <= j < i ==> is_field_byte(#[trigger] s@[j]),
        decreases s@.len() - i,
    {
        let b: u8 = s[i];
        if !(is_valid_field_vchar(b) || b == SP || b == HTAB) {
            assert(!is_field_byte(s@[i as int]));
            return false;
        }
        i = i + 1;
    }
    true
}

/// Whether `s` may stand as a request target.
pub fn is_valid_request_target(s: &[u8]) -> (r: bool)
    ensures
        r == is_request_target(s@),
{
    let mut i: usize = 0;
    while i < s.len()
        invariant
            i <= s@.len(),
            forall|j: int| 0 <= j < i ==> is_vchar(#[trigger] s@[j]),
        decreases s@.len() - i,
    {
        if s[i] < 33 || s[i] > 126 {
            assert(!is_vchar(s@[i as int]));
            return false;
        }
        i = i + 1;
    }
    s.len() > 0
}

/// Check that `s` is a request target in origin-form.
pub fn validate_origin_form(s: &[u8]) -> (r: Result<(), OriginFormError>)
    ensures
        r is Ok <==> is_origin_form(s@),
        r == Err::<(), _>(OriginFormError::NotAbsolutePath) <==> (s@.len() == 0 || s@[0]
            != '/' as u8),
        r == Err::<(), _>(OriginFormError::InvalidCharacter) <==> (s@.len() > 0 && s@[0]
            == '/' as u8 && !all_path_bytes(s@)),
{
    if s.len() == 0 || s[0] != '/' as u8 {
        return Err(OriginFormError::NotAbsolutePath);
    }
    let mut i: usize = 0;
    while i < s.len()
        invariant
            i <= s@.len(),
            s@.len() > 0,
            s@[0] == '/' as u8,
            forall|j: int| 0 <= j < i ==> is_path_byte(#[trigger] s@[j]),
        decreases s@.len() - i,
    {
        if !path_byte(s[i]) {
            assert(!is_path_byte(s@[i as int]));
            return Err(OriginFormError::InvalidCharacter);
        }
        i = i + 1;
    }
    Ok(())
}

/// What each kind of byte leaves out. A `tchar` is a visible ASCII character that is no
/// delimiter; a byte of a path or a query is one that needs no percent-encoding there; a
/// byte of a field value is no control character but the tab.
pub proof fn bytes_that_are_left_out(b: u8)
    ensures
        is_tchar(b) <==> 32 < b < 127 && b != '"' as u8 && b != '(' as u8 && b != ')' as u8 && b
            != ',' as u8 && b != '/' as u8 && b != ':' as u8 && b != ';' as u8 && b != '<' as u8
            && b != '=' as u8 && b != '>' as u8 && b != '?' as u8 && b != '@' as u8 && b
            != '[' as u8 && b != 92 && b != ']' as u8 && b != '{' as u8 && b != '}' as u8,
        is_path_byte(b) <==> 32 < b < 127 && b != '"' as u8 && b != '#' as u8 && b != '<' as u8
            && b != '>' as u8 && b != '[' as u8 && b != 92 && b != ']' as u8 && b != '^' as u8
            && b != '`' as u8 && b != '{' as u8 && b != '|' as u8 && b != '}' as u8,
        is_field_vchar(b) <==> b > 32 && b != 127,
        is_field_byte(b) <==> b == 9 || b >= 32 && b != 127,
        is_vchar(b) <==> 32 < b < 127,
{
}

/// What makes up a field name, a field value, a request target and an origin-form: each of
/// their bytes is of the right kind; the first and the last two have a byte, and the last
/// starts with a slash.
pub proof fn texts_are_made_of_their_bytes(s: Seq<u8>)
    ensures
        is_field_name(s) <==> s.len() > 0 && forall|i: int|
            0 <= i < s.len() ==> is_tchar(#[trigger] s[i]),
        all_tchars(s) <==> forall|i: int| 0 <= i < s.len() ==> is_tchar(#[trigger] s[i]),
        is_field_value(s) <==> forall|i: int|
            0 <= i < s.len() ==> (#[trigger] s[i] == 9 || s[i] >= 32 && s[i] != 127),
        is_request_target(s) <==> s.len() > 0 && forall|i: int|
            0 <= i < s.len() ==> 32 < #[trigger] s[i] < 127,
        is_origin_form(s) <==> s.len() > 0 && s[0] == '/' as u8 && forall|i: int|
            0 <= i < s.len() ==> is_path_byte(#[trigger] s[i]),
{
    if forall|i: int| 0 <= i < s.len() ==> (#[trigger] s[i] == 9 || s[i] >= 32 && s[i] != 127) {
        assert forall|i: int| 0 <= i < s.len() implies is_field_byte(#[trigger] s[i]) by {}
    }
    if is_field_value(s) {
        assert forall|i: int| 0 <= i < s.len() implies (#[trigger] s[i] == 9 || s[i] >= 32 && s[i]
            != 127) by {
            assert(is_field_byte(s[i]));
        }
    }
    if is_request_target(s) {
        assert forall|i: int| 0 <= i < s.len() implies 32 < #[trigger] s[i] < 127 by {
            assert(is_vchar(s[i]));
        }
    }
    if forall|i: int| 0 <= i < s.len() ==> 32 < #[trigger] s[i] < 127 {
        assert forall|i: int| 0 <= i < s.len() implies is_vchar(#[trigger] s[i]) by {}
    }
}

/// A target is taken for an origin-form exactly where it starts with a slash and holds no
/// byte that a path or a query may not; and it is told which of the two is wrong, the slash
/// first.
pub proof fn origin_forms_are_checked(s: &[u8], r: Result<(), OriginFormError>)
    requires
        call_ensures(validate_origin_form, (s,), r),
    ensures
        match r {
            Ok(()) => s@.len() > 0 && s@[0] == '/' as u8 && forall|i: int|
                0 <= i < s@.len() ==> is_path_byte(#[trigger] s@[i]),
            Err(OriginFormError::NotAbsolutePath) => s@.len() == 0 || s@[0] != '/' as u8,
            Err(OriginFormError::InvalidCharacter) => s@.len() > 0 && s@[0] == '/' as u8 && exists|
                i: int,
            | 0 <= i < s@.len() && !is_path_byte(#[trigger] s@[i]),
        },
{
}

/// What the checks of names, values, targets and tokens accept.
pub proof fn checks_accept_what_is_right(s: &[u8], name: bool, value: bool, target: bool, token: bool)
    requires
        call_ensures(is_valid_field_name, (s,), name),
        call_ensures(is_valid_field_value, (s,), value),
        call_ensures(is_valid_request_target, (s,), target),
        call_ensures(is_all_tchars, (s,), token),
    ensures
        name <==> token && s@.len() > 0,
        token <==> forall|i: int| 0 <= i < s@.len() ==> is_tchar(#[trigger] s@[i]),
        value <==> forall|i: int|
            0 <= i < s@.len() ==> (#[trigger] s@[i] == 9 || s@[i] >= 32 && s@[i] != 127),
        target <==> s@.len() > 0 && forall|i: int| 0 <= i < s@.len() ==> 32 < #[trigger] s@[i] < 127,
{
    texts_are_made_of_their_bytes(s@);
}

} // verus!
