use vstd::prelude::*;
use vstd::utf8::*;

verus! {

/// The characters with the Unicode `White_Space` property, which `char::is_whitespace`
/// and `str::trim` go by.
pub open spec fn is_white_space(c: char) -> bool {
    let u = c as u32;
    ||| 0x09 <= u <= 0x0D
    ||| u == 0x20
    ||| u == 0x85
    ||| u == 0xA0
    ||| u == 0x1680
    ||| 0x2000 <= u <= 0x200A
    ||| u == 0x2028
    ||| u == 0x2029
    ||| u == 0x202F
    ||| u == 0x205F
    ||| u == 0x3000
}

/// `s` without its leading white space.
pub open spec fn trim_start_spec(s: Seq<char>) -> Seq<char>
    decreases s.len(),
{
    if s.len() > 0 && is_white_space(s[0]) {
        trim_start_spec(s.drop_first())
    } else {
        s
    }
}

/// `s` without its trailing white space.
pub open spec fn trim_end_spec(s: Seq<char>) -> Seq<char>
    decreases s.len(),
{
    if s.len() > 0 && is_white_space(s.last()) {
        trim_end_spec(s.drop_last())
    } else {
        s
    }
}

/// `s` without leading and trailing white space, as `str::trim` gives it.
pub open spec fn trim_spec(s: Seq<char>) -> Seq<char> {
    trim_end_spec(trim_start_spec(s))
}

/// A text that neither starts nor ends with white space.
pub open spec fn is_trimmed(s: Seq<char>) -> bool {
    s.len() == 0 || (!is_white_space(s[0]) && !is_white_space(s.last()))
}

/// Trimming leaves a text that neither starts nor ends with white space alone.
pub proof fn lemma_trim_trimmed(s: Seq<char>)
    requires
        is_trimmed(s),
    ensures
        trim_spec(s) == s,
{
}

/// What `String::from_utf8_lossy` makes of bytes that are not valid UTF-8: their
/// reading with U+FFFD in place of each invalid sequence.
pub uninterp spec fn utf8_lossy(bytes: Seq<u8>) -> Seq<char>;

/// What `String::from_utf8_lossy` makes of any bytes: valid UTF-8 is decoded as it
/// stands, anything else goes by `utf8_lossy`.
pub open spec fn utf8_read(bytes: Seq<u8>) -> Seq<char> {
    if valid_utf8(bytes) {
        decode_utf8(bytes)
    } else {
        utf8_lossy(bytes)
    }
}

/// Calls `String::from_utf8_lossy`. Its documentation states that the result is a
/// function of the bytes alone, and that bytes that are valid UTF-8 are read as
/// they stand; which replacement characters invalid input yields is left to the
/// name `utf8_lossy`.
#[verifier::external_body]
fn from_utf8_lossy(bytes: &[u8]) -> (s: String)
    ensures
        valid_utf8(bytes@) ==> s@ == decode_utf8(bytes@),
        !valid_utf8(bytes@) ==> s@ == utf8_lossy(bytes@),
{
    String::from_utf8_lossy(bytes).into_owned()
}

/// Calls `str::trim`, which the standard library documents as removing leading
/// and trailing characters with the `White_Space` property.
#[verifier::external_body]
fn trim_str(s: &str) -> (r: &str)
    ensures
        r@ == trim_spec(s@),
{
    s.trim()
}

/// The text without leading and trailing white space.
pub fn trim(s: &str) -> (r: &str)
    ensures
        r@ == trim_spec(s@),
{
    trim_str(s)
}

/// The text that a field of the protocol carries in the given bytes.
pub open spec fn decoded_text(bytes: Seq<u8>) -> Seq<char> {
    trim_spec(utf8_read(bytes))
}

/// Reads a text field: lossy UTF-8, then trimmed.
pub fn text_of(bytes: &[u8]) -> (s: String)
    ensures
        s@ == decoded_text(bytes@),
{
    let raw = from_utf8_lossy(bytes);
    let t = trim_str(raw.as_str());
    t.to_owned()
}

/// Reading the UTF-8 bytes of a trimmed text gives the text back.
pub proof fn lemma_decoded_text_encode(s: Seq<char>)
    requires
        is_trimmed(s),
    ensures
        decoded_text(encode_utf8(s)) == s,
{
    broadcast use encode_utf8_valid_utf8, encode_utf8_decode_utf8;

    lemma_trim_trimmed(s);
}

} // verus!
