use crate::error::{CallError, InvalidArgument, MyErrors};
use crate::payload::{lemma_bytes_deep_view, string_bytes, string_from_bytes, Payload};
use vstd::bytes::*;
use vstd::prelude::*;
use vstd::string::{StringExecFns, StringExecFnsIsAscii};
use vstd::utf8::{encode_utf8, encode_utf8_decode_utf8, is_ascii_chars};

verus! {

/// A lower-case ASCII letter.
pub open spec fn is_ascii_lower(c: char) -> bool {
    'a' <= c && c <= 'z'
}

/// `r` is `s` with each ASCII lower-case letter made upper-case and every other character kept.
pub open spec fn is_ascii_upper_of(s: Seq<char>, r: Seq<char>) -> bool {
    &&& r.len() == s.len()
    &&& forall|i: int|
        0 <= i < s.len() ==> {
            &&& is_ascii_lower(#[trigger] s[i]) ==> r[i] as u32 == s[i] as u32 - 32
            &&& !is_ascii_lower(s[i]) ==> r[i] == s[i]
        }
}

/// Relies on `str::to_ascii_uppercase`: letters 'a' to 'z' become 'A' to 'Z', all other
/// characters stay as they are.
#[verifier::external_body]
fn to_ascii_uppercase(s: &str) -> (r: String)
    ensures
        is_ascii_upper_of(s@, r@),
{
    s.to_ascii_uppercase()
}

/// The length of a text in bytes of UTF-8.
pub open spec fn byte_len(s: Seq<char>) -> int {
    encode_utf8(s).len() as int
}

/// What the validating upper-casing returns: texts of 5 to 15 bytes of ASCII are upper-cased.
pub open spec fn ascii_uppercase_outcome(text: Seq<char>, r: Result<Seq<char>, InvalidArgument>) -> bool {
    if byte_len(text) < 5 {
        r == Err::<Seq<char>, InvalidArgument>(InvalidArgument::TooShort)
    } else if byte_len(text) > 15 {
        r == Err::<Seq<char>, InvalidArgument>(InvalidArgument::TooLong)
    } else if is_ascii_chars(text) {
        r matches Ok(u) && is_ascii_upper_of(text, u)
    } else {
        r == Err::<Seq<char>, InvalidArgument>(InvalidArgument::NotAscii)
    }
}

/// The view of a result whose success value is a string.
pub open spec fn text_result<E>(r: Result<String, E>) -> Result<Seq<char>, E> {
    match r {
        Ok(s) => Ok(s@),
        Err(e) => Err(e),
    }
}

/// Upper-cases a text of 5 to 15 bytes of ASCII; refuses a shorter, longer or non-ASCII one.
pub fn ascii_uppercase_inner(text: String) -> (r: Result<String, InvalidArgument>)
    ensures
        ascii_uppercase_outcome(text@, text_result(r)),
{
    let n = text.as_str().as_bytes().len();
    if n < 5 {
        Err(InvalidArgument::TooShort)
    } else if n > 15 {
        Err(InvalidArgument::TooLong)
    } else if text.is_ascii() {
        Ok(to_ascii_uppercase(text.as_str()))
    } else {
        Err(InvalidArgument::NotAscii)
    }
}

/// A step that never fails; the error it could give is a plain message.
pub fn other_error() -> (r: Result<(), String>)
    ensures
        r is Ok,
{
    Ok(())
}

/// The validating upper-casing, with its reasons carried in the application error type.
pub fn ascii_uppercase(text: String) -> (r: Result<String, MyErrors>)
    ensures
        match r {
            Ok(u) => ascii_uppercase_outcome(text@, Ok(u@)),
            Err(MyErrors::InvalidArgument(a)) => ascii_uppercase_outcome(text@, Err(a)),
            Err(_) => false,
        },
{
    match other_error() {
        Ok(()) => {},
        Err(s) => {
            return Err(MyErrors::from(s));
        },
    }
    match ascii_uppercase_inner(text) {
        Ok(u) => Ok(u),
        Err(a) => Err(MyErrors::from(a)),
    }
}

/// The error of an operation: a domain error of the handler, or a failure at the boundary.
pub enum ServerFnError<E> {
    WrappedServerError(E),
    Call(CallError),
}

/// The validating upper-casing, with its reasons wrapped in the generic boundary error.
pub fn ascii_uppercase_classic(text: String) -> (r: Result<String, ServerFnError<InvalidArgument>>)
    ensures
        match r {
            Ok(u) => ascii_uppercase_outcome(text@, Ok(u@)),
            Err(ServerFnError::WrappedServerError(a)) => ascii_uppercase_outcome(text@, Err(a)),
            Err(ServerFnError::Call(_)) => false,
        },
{
    match ascii_uppercase_inner(text) {
        Ok(u) => Ok(u),
        Err(a) => Err(ServerFnError::WrappedServerError(a)),
    }
}

/// The input with its ASCII letters upper-cased.
pub fn shouting_text(input: String) -> (r: String)
    ensures
        is_ascii_upper_of(input@, r@),
{
    to_ascii_uppercase(input.as_str())
}

/// The input with its ASCII letters upper-cased; the operation that travels in a binary format.
pub fn rkyv_example(input: String) -> (r: String)
    ensures
        is_ascii_upper_of(input@, r@),
{
    to_ascii_uppercase(input.as_str())
}

/// The length of the input in bytes.
pub fn length_of_input(input: String) -> (r: usize)
    ensures
        r == byte_len(input@),
{
    input.as_str().as_bytes().len()
}

/// A text and what it became once something was appended to it.
pub struct WhyNotResult {
    pub original: String,
    pub modified: String,
}

impl View for WhyNotResult {
    type V = (Seq<char>, Seq<char>);

    open spec fn view(&self) -> (Seq<char>, Seq<char>) {
        (self.original@, self.modified@)
    }
}

impl Payload for WhyNotResult {
    open spec fn fields_of(v: (Seq<char>, Seq<char>)) -> Seq<Seq<u8>> {
        seq![encode_utf8(v.0), encode_utf8(v.1)]
    }

    proof fn lemma_fields_injective(a: (Seq<char>, Seq<char>), b: (Seq<char>, Seq<char>)) {
        assert(Self::fields_of(a)[0] == Self::fields_of(b)[0]);
        assert(Self::fields_of(a)[1] == Self::fields_of(b)[1]);
        encode_utf8_decode_utf8(a.0);
        encode_utf8_decode_utf8(b.0);
        encode_utf8_decode_utf8(a.1);
        encode_utf8_decode_utf8(b.1);
    }

    fn to_fields(&self) -> (r: Vec<Vec<u8>>) {
        let r = vec![string_bytes(&self.original), string_bytes(&self.modified)];
        proof {
            lemma_bytes_deep_view(&r[0]);
            lemma_bytes_deep_view(&r[1]);
            assert(r.deep_view()[0] == r[0].deep_view());
            assert(r.deep_view()[1] == r[1].deep_view());
            assert(r.deep_view() =~= Self::fields_of(self@));
        }
        r
    }

    fn from_fields(fs: &Vec<Vec<u8>>) -> (r: Option<WhyNotResult>) {
        proof {
            assert(fs.deep_view().len() == fs.len());
        }
        if fs.len() != 2 {
            return None;
        }
        proof {
            lemma_bytes_deep_view(&fs[0]);
            lemma_bytes_deep_view(&fs[1]);
            assert(fs.deep_view()[0] == fs[0].deep_view());
            assert(fs.deep_view()[1] == fs[1].deep_view());
        }
        match (string_from_bytes(&fs[0]), string_from_bytes(&fs[1])) {
            (Some(original), Some(modified)) => {
                let r = WhyNotResult { original, modified };
                proof {
                    assert(Self::fields_of(r@) =~= fs.deep_view());
                }
                Some(r)
            },
            _ => {
                proof {
                    assert forall|v: (Seq<char>, Seq<char>)| Self::fields_of(v) != fs.deep_view() by {
                        if Self::fields_of(v) == fs.deep_view() {
                            assert(Self::fields_of(v)[0] == fs.deep_view()[0]);
                            assert(Self::fields_of(v)[1] == fs.deep_view()[1]);
                        }
                    }
                }
                None
            },
        }
    }
}

/// Keeps the original text and appends the addition to a copy of it.
pub fn why_not(original: String, addition: String) -> (r: WhyNotResult)
    ensures
        r.original@ == original@,
        r.modified@ == original@ + addition@,
{
    let modified = original.clone().concat(addition.as_str());
    WhyNotResult { modified, original }
}

/// A person's record, sent in a compact binary format.
pub struct PostcardData {
    pub name: String,
    pub age: u32,
    pub hobbies: Vec<String>,
}

/// The views of a list of strings.
pub open spec fn texts(v: Seq<String>) -> Seq<Seq<char>> {
    v.map_values(|s: String| s@)
}

/// The UTF-8 bytes of each text.
pub open spec fn utf8_fields(v: Seq<Seq<char>>) -> Seq<Seq<u8>> {
    v.map_values(|s: Seq<char>| encode_utf8(s))
}

impl View for PostcardData {
    type V = (Seq<char>, u32, Seq<Seq<char>>);

    open spec fn view(&self) -> (Seq<char>, u32, Seq<Seq<char>>) {
        (self.name@, self.age, texts(self.hobbies@))
    }
}

/// The hobby that the example operation adds.
pub open spec fn added_hobby() -> Seq<char> {
    "Rust programming"@
}

/// A year older, with one more hobby.
pub fn postcard_example(data: PostcardData) -> (r: PostcardData)
    requires
        data.age < u32::MAX,
    ensures
        r@ == (data.name@, (data.age + 1) as u32, texts(data.hobbies@).push(added_hobby())),
{
    let mut modified_data = data;
    modified_data.age = modified_data.age + 1;
    let ghost before = modified_data.hobbies@;
    modified_data.hobbies.push("Rust programming".to_owned());
    proof {
        assert(texts(modified_data.hobbies@) =~= texts(before).push(added_hobby()));
    }
    modified_data
}

/// Reads each field as a UTF-8 text.
fn texts_from_fields(fs: &Vec<Vec<u8>>, start: usize) -> (r: Option<Vec<String>>)
    requires
        start <= fs.len(),
    ensures
        r matches Some(v) ==> utf8_fields(texts(v@)) == fs.deep_view().skip(start as int),
        r is None ==> forall|t: Seq<Seq<char>>| utf8_fields(t) != fs.deep_view().skip(start as int),
{
    let mut out: Vec<String> = Vec::new();
    let mut i: usize = start;
    while i < fs.len()
        invariant
            start <= i <= fs.len(),
            out.len() == i - start,
            utf8_fields(texts(out@)) == fs.deep_view().subrange(start as int, i as int),
        decreases fs.len() - i,
    {
        proof {
            lemma_bytes_deep_view(&fs[i as int]);
            assert(fs.deep_view()[i as int] == fs[i as int].deep_view());
        }
        match string_from_bytes(&fs[i]) {
            Some(s) => {
                let ghost before = out@;
                out.push(s);
                proof {
                    assert(utf8_fields(texts(out@)) =~= utf8_fields(texts(before)).push(fs.deep_view()[i as int]));
                    assert(fs.deep_view().subrange(start as int, i + 1) =~= fs.deep_view().subrange(start as int, i as int).push(fs.deep_view()[i as int]));
                }
            },
            None => {
                proof {
                    assert forall|t: Seq<Seq<char>>| utf8_fields(t) != fs.deep_view().skip(start as int) by {
                        if utf8_fields(t) == fs.deep_view().skip(start as int) {
                            let k = i - start;
                            assert(utf8_fields(t).len() == t.len());
                            assert(utf8_fields(t)[k] == fs.deep_view()[i as int]);
                            assert(utf8_fields(t)[k] == encode_utf8(t[k]));
                        }
                    }
                }
                return None;
            },
        }
        i = i + 1;
    }
    proof {
        assert(fs.deep_view().subrange(start as int, fs.len() as int) =~= fs.deep_view().skip(start as int));
    }
    Some(out)
}

impl Payload for PostcardData {
    open spec fn fields_of(v: (Seq<char>, u32, Seq<Seq<char>>)) -> Seq<Seq<u8>> {
        seq![encode_utf8(v.0), spec_u32_to_le_bytes(v.1)] + utf8_fields(v.2)
    }

    proof fn lemma_fields_injective(a: (Seq<char>, u32, Seq<Seq<char>>), b: (Seq<char>, u32, Seq<Seq<char>>)) {
        lemma_auto_spec_u32_to_from_le_bytes();
        let fa = Self::fields_of(a);
        let fb = Self::fields_of(b);
        assert(fa[0] == fb[0]);
        assert(fa[1] == fb[1]);
        encode_utf8_decode_utf8(a.0);
        encode_utf8_decode_utf8(b.0);
        assert(spec_u32_to_le_bytes(a.1).len() == 4);
        assert(spec_u32_to_le_bytes(b.1).len() == 4);
        assert(fa[1] == spec_u32_to_le_bytes(a.1));
        assert(fb[1] == spec_u32_to_le_bytes(b.1));
        assert(a.1 == b.1);
        assert(fa.len() == fb.len());
        assert(a.2.len() == b.2.len());
        assert forall|i: int| 0 <= i < a.2.len() implies a.2[i] == b.2[i] by {
            assert(fa[i + 2] == fb[i + 2]);
            assert(fa[i + 2] == encode_utf8(a.2[i]));
            assert(fb[i + 2] == encode_utf8(b.2[i]));
            encode_utf8_decode_utf8(a.2[i]);
            encode_utf8_decode_utf8(b.2[i]);
        }
        assert(a.2 =~= b.2);
    }

    fn to_fields(&self) -> (r: Vec<Vec<u8>>) {
        let mut r = vec![string_bytes(&self.name), u32_to_le_bytes(self.age)];
        proof {
            lemma_bytes_deep_view(&r[0]);
            lemma_bytes_deep_view(&r[1]);
            assert(r.deep_view() =~= seq![encode_utf8(self.name@), spec_u32_to_le_bytes(self.age)]);
        }
        let mut i: usize = 0;
        while i < self.hobbies.len()
            invariant
                0 <= i <= self.hobbies.len(),
                r.deep_view() == seq![encode_utf8(self.name@), spec_u32_to_le_bytes(self.age)] + utf8_fields(texts(self.hobbies@.take(i as int))),
            decreases self.hobbies.len() - i,
        {
            let b = string_bytes(&self.hobbies[i]);
            let ghost before = r.deep_view();
            proof {
                lemma_bytes_deep_view(&b);
            }
            r.push(b);
            proof {
                assert(r.deep_view() =~= before.push(b@));
                assert(utf8_fields(texts(self.hobbies@.take(i + 1))) =~= utf8_fields(texts(self.hobbies@.take(i as int))).push(b@));
            }
            i = i + 1;
        }
        proof {
            assert(self.hobbies@.take(self.hobbies.len() as int) =~= self.hobbies@);
        }
        r
    }

    fn from_fields(fs: &Vec<Vec<u8>>) -> (r: Option<PostcardData>) {
        proof {
            lemma_auto_spec_u32_to_from_le_bytes();
            assert(fs.deep_view().len() == fs.len());
        }
        if fs.len() < 2 {
            proof {
                assert forall|v: (Seq<char>, u32, Seq<Seq<char>>)| Self::fields_of(v) != fs.deep_view() by {
                    assert(Self::fields_of(v).len() >= 2);
                }
            }
            return None;
        }
        proof {
            lemma_bytes_deep_view(&fs[0]);
            lemma_bytes_deep_view(&fs[1]);
            assert(fs.deep_view()[0] == fs[0].deep_view());
            assert(fs.deep_view()[1] == fs[1].deep_view());
        }
        let name = string_from_bytes(&fs[0]);
        let hobbies = texts_from_fields(fs, 2);
        if fs[1].len() != 4 || name.is_none() || hobbies.is_none() {
            proof {
                assert forall|v: (Seq<char>, u32, Seq<Seq<char>>)| Self::fields_of(v) != fs.deep_view() by {
                    if Self::fields_of(v) == fs.deep_view() {
                        let fv = Self::fields_of(v);
                        assert(fv[0] == fs.deep_view()[0]);
                        assert(fv[1] == fs.deep_view()[1]);
                        assert(fv.skip(2) =~= utf8_fields(v.2));
                    }
                }
            }
            return None;
        }
        let age = u32_from_le_bytes(fs[1].as_slice());
        let r = PostcardData { name: name.unwrap(), age, hobbies: hobbies.unwrap() };
        proof {
            assert(Self::fields_of(r@) =~= fs.deep_view());
        }
        Some(r)
    }
}

} // verus!
