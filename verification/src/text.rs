use vstd::prelude::*;

verus! {

/// What `str::to_lowercase` returns for a string (Unicode lowercase mapping).
pub uninterp spec fn lowercase_of(s: Seq<char>) -> Seq<char>;

/// What `char::to_uppercase` yields for a character (Unicode uppercase mapping).
pub uninterp spec fn uppercase_of(c: char) -> Seq<char>;

pub open spec fn is_ascii_char(c: char) -> bool {
    (c as u32) < 128
}

pub open spec fn ascii_lower(c: char) -> char {
    if 'A' <= c && c <= 'Z' {
        ((c as u32) + 32) as char
    } else {
        c
    }
}

pub open spec fn ascii_upper(c: char) -> char {
    if 'a' <= c && c <= 'z' {
        ((c as u32) - 32) as char
    } else {
        c
    }
}

/// Wraps `str::to_lowercase`. Its result is named by `lowercase_of`; the
/// documentation also fixes it on ASCII text, where it lowers `A`-`Z` one for one.
/// What it does to other characters (Unicode tables) is not stated here.
#[verifier::external_body]
pub(crate) fn to_lowercase_string(s: &str) -> (r: String)
    ensures
        r@ == lowercase_of(s@),
        (forall|k: int| 0 <= k < s@.len() ==> is_ascii_char(#[trigger] s@[k])) ==> (r@.len()
            == s@.len() && forall|k: int| 0 <= k < s@.len() ==> r@[k] == ascii_lower(
            #[trigger] s@[k],
        )),
{
    s.to_lowercase()
}

/// What `str::to_uppercase` returns for a string (Unicode uppercase mapping).
pub uninterp spec fn uppercase_str_of(s: Seq<char>) -> Seq<char>;

/// Wraps `str::to_uppercase`. Its result is named by `uppercase_str_of`; the
/// documentation also fixes it on ASCII text, where it raises `a`-`z` one for one.
/// What it does to other characters (Unicode tables) is not stated here.
#[verifier::external_body]
pub(crate) fn to_uppercase_string(s: &str) -> (r: String)
    ensures
        r@ == uppercase_str_of(s@),
        (forall|k: int| 0 <= k < s@.len() ==> is_ascii_char(#[trigger] s@[k])) ==> (r@.len()
            == s@.len() && forall|k: int| 0 <= k < s@.len() ==> r@[k] == ascii_upper(
            #[trigger] s@[k],
        )),
{
    s.to_uppercase()
}

/// Wraps `char::to_uppercase` followed by collecting its characters.
/// Its result is named by `uppercase_of`; on an ASCII character it is the single
/// character that `char::to_ascii_uppercase` gives. Other characters
/// (Unicode tables, possibly several characters) are not stated here.
#[verifier::external_body]
pub(crate) fn char_to_uppercase(c: char) -> (r: String)
    ensures
        r@ == uppercase_of(c),
        is_ascii_char(c) ==> r@ == seq![ascii_upper(c)],
{
    c.to_uppercase().to_string()
}

/// Wraps `String::push`.
#[verifier::external_body]
pub(crate) fn push_char(s: &mut String, c: char)
    ensures
        final(s)@ == old(s)@.push(c),
{
    s.push(c)
}

/// Appends a text (vstd's specified `append`).
pub(crate) fn push_str(s: &mut String, t: &str)
    ensures
        final(s)@ == old(s)@ + t@,
{
    s.append(t)
}

/// Whether two texts are equal, compared as owned strings (vstd specifies
/// `==` on `String`).
pub(crate) fn str_equal(a: &str, b: &str) -> (r: bool)
    ensures
        r == (a@ == b@),
{
    let x = owned(a);
    let y = owned(b);
    x == y
}

/// An owned copy of a text (vstd's specified `str::to_owned`).
pub(crate) fn owned(s: &str) -> (r: String)
    ensures
        r@ == s@,
{
    s.to_owned()
}

/// The character of a decimal digit.
pub open spec fn digit_char(d: int) -> char {
    (d + 48) as char
}

/// Decimal text of a natural number.
pub open spec fn decimal(v: int) -> Seq<char>
    decreases v,
{
    if v < 10 {
        seq![digit_char(v)]
    } else {
        decimal(v / 10) + seq![digit_char(v % 10)]
    }
}

fn digit(d: u64) -> (c: char)
    requires
        d < 10,
    ensures
        c == digit_char(d as int),
{
    ((d as u8) + 48) as char
}

/// Appends the decimal text of `v`.
pub fn push_decimal(s: &mut String, v: u64)
    ensures
        final(s)@ == old(s)@ + decimal(v as int),
    decreases v,
{
    if v >= 10 {
        push_decimal(s, v / 10);
    }
    push_char(s, digit(v % 10));
    assert(final(s)@ =~= old(s)@ + decimal(v as int));
}

/// What `<str as Debug>::fmt` writes for a text: the text in double quotes,
/// with the characters that need it escaped.
pub uninterp spec fn debug_str_of(s: Seq<char>) -> Seq<char>;

/// Whether `<str as Debug>` writes a character as itself: ASCII letters,
/// digits, `_` and the space.
pub open spec fn plain_debug_char(c: char) -> bool {
    ('a' <= c && c <= 'z') || ('A' <= c && c <= 'Z') || ('0' <= c && c <= '9') || c == '_' || c
        == ' '
}

/// Wraps `format!("{:?}", s)` on a string slice. Its text is named by
/// `debug_str_of`; when every character is an ASCII letter, digit, `_` or
/// space it is the text between double quotes, as the documentation of
/// `char::escape_debug` shows. The escapes of other characters are not stated.
#[verifier::external_body]
pub(crate) fn debug_string(s: &str) -> (r: String)
    ensures
        r@ == debug_str_of(s@),
        (forall|k: int| 0 <= k < s@.len() ==> plain_debug_char(#[trigger] s@[k])) ==> r@ == seq!['"'] + s@
            + seq!['"'],
{
    format!("{:?}", s)
}

/// Appends what `format!("{:?}", s)` gives for a string slice.
pub(crate) fn push_debug_str(out: &mut String, s: &str)
    ensures
        final(out)@ == old(out)@ + debug_str_of(s@),
        (forall|k: int| 0 <= k < s@.len() ==> plain_debug_char(#[trigger] s@[k])) ==> final(out)@
            == old(out)@ + seq!['"'] + s@ + seq!['"'],
{
    let d = debug_string(s);
    push_str(out, d.as_str());
}

} // verus!
