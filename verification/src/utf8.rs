//! Text and bytes: the checked conversions of the standard library, and what the
//! verified code needs to know of them.

use vstd::prelude::*;
use vstd::string::*;
use vstd::utf8::*;

verus! {

/// The error of `core::str::from_utf8`, carried through as it comes.
#[verifier::external_type_specification]
#[verifier::external_body]
pub struct ExUtf8Error(core::str::Utf8Error);

/// The error of `String::from_utf8`, carried through as it comes.
#[verifier::external_type_specification]
#[verifier::external_body]
pub struct ExFromUtf8Error(std::string::FromUtf8Error);

/// `core::str::from_utf8` succeeds exactly on well-formed UTF-8, and the string
/// slice it then returns has the bytes it was given.
pub assume_specification<'a>[ core::str::from_utf8 ](v: &'a [u8]) -> (r: Result<
    &'a str,
    core::str::Utf8Error,
>)
    ensures
        r is Ok <==> valid_utf8(v@),
        r matches Ok(s) ==> s.spec_bytes() == v@,
;

/// `String::from_utf8` succeeds exactly on well-formed UTF-8, and the string it
/// then returns has the bytes it was given.
pub assume_specification[ String::from_utf8 ](vec: Vec<u8>) -> (r: Result<
    String,
    std::string::FromUtf8Error,
>)
    ensures
        r is Ok <==> valid_utf8(vec@),
        r matches Ok(s) ==> encode_utf8(s@) == vec@,
;

/// The text that `{:?}` writes for a string: the string in double quotes, with
/// the escapes of `str`'s `Debug`.
pub uninterp spec fn str_debug(s: Seq<char>) -> Seq<char>;

/// Formats `s` with the `Debug` impl of `str`; the result is a function of the
/// string alone.
#[verifier::external_body]
pub(crate) fn debug_str(s: &str) -> (r: String)
    ensures
        r@ == str_debug(s@),
{
    format!("{:?}", s)
}

/// The texts of a list of names.
pub open spec fn texts(names: Seq<&'static str>) -> Seq<Seq<char>> {
    Seq::new(names.len(), |i: int| names[i]@)
}

/// The first `n` names as `str_debug` writes them, with a comma and a space
/// between one and the next.
pub open spec fn names_joined(names: Seq<Seq<char>>, n: nat) -> Seq<char>
    decreases n,
{
    if n == 0 {
        Seq::empty()
    } else if n == 1 {
        str_debug(names[0])
    } else {
        names_joined(names, (n - 1) as nat) + ", "@ + str_debug(names[n - 1])
    }
}

/// The text that `{:?}` writes for a list of strings: the strings as `str_debug`
/// writes them, with a comma and a space between them, in square brackets.
pub open spec fn names_debug(names: Seq<Seq<char>>) -> Seq<char> {
    "["@ + names_joined(names, names.len()) + "]"@
}

/// Formats a list of names with the `Debug` impl of a list of `str`, which
/// writes a list in one line as its items in square brackets, with a comma and a
/// space between them.
#[verifier::external_body]
pub(crate) fn debug_names(names: &Vec<&'static str>) -> (r: String)
    ensures
        r@ == names_debug(texts(names@)),
{
    format!("{:?}", names)
}

/// The message of `core::str::Utf8Error`, which says where the bytes stop being
/// UTF-8. Nothing is claimed of it.
#[verifier::external_body]
pub(crate) fn utf8_error_text(e: &core::str::Utf8Error) -> (r: String) {
    e.to_string()
}

/// The message of `std::string::FromUtf8Error`, which says where the bytes stop
/// being UTF-8. Nothing is claimed of it.
#[verifier::external_body]
pub(crate) fn from_utf8_error_text(e: &std::string::FromUtf8Error) -> (r: String) {
    e.to_string()
}

/// `char::to_string` gives the string of that one character.
#[verifier::external_body]
pub(crate) fn char_text(c: char) -> (r: String)
    ensures
        r@ == seq![c],
{
    c.to_string()
}

/// The characters that a string of ASCII bytes spells.
pub open spec fn ascii_chars(bytes: Seq<u8>) -> Seq<char> {
    Seq::new(bytes.len(), |i: int| bytes[i] as char)
}

/// Whether every byte is below 128.
pub open spec fn is_ascii_bytes(bytes: Seq<u8>) -> bool {
    forall|i: int| 0 <= i < bytes.len() ==> #[trigger] bytes[i] < 128
}

/// ASCII bytes are well-formed UTF-8 and spell one character each.
pub proof fn lemma_ascii_utf8(bytes: Seq<u8>)
    requires
        is_ascii_bytes(bytes),
    ensures
        valid_utf8(bytes),
        decode_utf8(bytes) == ascii_chars(bytes),
        encode_utf8(ascii_chars(bytes)) == bytes,
{
    let chars = ascii_chars(bytes);
    assert(is_ascii_chars(chars)) by {
        assert forall|i: int| 0 <= i < chars.len() implies '\0' <= #[trigger] chars[i] <= '\u{7f}' by {
            assert(bytes[i] < 128);
        }
    }
    is_ascii_chars_encode_utf8(chars);
    assert(encode_utf8(chars) =~= bytes) by {
        assert forall|i: int| 0 <= i < bytes.len() implies (chars[i] as u8) == bytes[i] by {
            assert(bytes[i] < 128);
        }
    }
    encode_utf8_valid_utf8(chars);
    encode_utf8_decode_utf8(chars);
}

/// Two texts with the same bytes are the same text.
pub proof fn lemma_same_bytes_same_text(a: Seq<char>, b: Seq<char>)
    requires
        encode_utf8(a) == encode_utf8(b),
    ensures
        a == b,
{
    encode_utf8_decode_utf8(a);
    encode_utf8_decode_utf8(b);
}

/// The text that well-formed bytes spell has those bytes.
pub proof fn lemma_text_of_bytes(bytes: Seq<u8>, text: Seq<char>)
    requires
        encode_utf8(text) == bytes,
    ensures
        valid_utf8(bytes),
        decode_utf8(bytes) == text,
{
    encode_utf8_valid_utf8(text);
    encode_utf8_decode_utf8(text);
}

/// The string that ASCII bytes spell.
pub(crate) fn ascii_string(bytes: Vec<u8>) -> (r: String)
    requires
        is_ascii_bytes(bytes@),
    ensures
        r@ == ascii_chars(bytes@),
{
    proof {
        lemma_ascii_utf8(bytes@);
    }
    let ghost spelled = bytes@;
    match String::from_utf8(bytes) {
        Ok(s) => {
            proof {
                lemma_same_bytes_same_text(s@, ascii_chars(spelled));
            }
            s
        },
        Err(_) => String::new(),
    }
}

/// Whether two texts are the same.
pub fn same_text(a: &str, b: &str) -> (r: bool)
    ensures
        r == (a@ == b@),
{
    let x = a.as_bytes();
    let y = b.as_bytes();
    if x.len() != y.len() {
        return false;
    }
    let mut i: usize = 0;
    while i < x.len()
        invariant
            i <= x.len(),
            x.len() == y.len(),
            x@ == encode_utf8(a@),
            y@ == encode_utf8(b@),
            forall|k: int| 0 <= k < i ==> x@[k] == y@[k],
        decreases x.len() - i,
    {
        if x[i] != y[i] {
            return false;
        }
        i += 1;
    }
    proof {
        assert(x@ =~= y@);
        lemma_same_bytes_same_text(a@, b@);
    }
    true
}

} // verus!
