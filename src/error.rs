use crate::payload::{lemma_bytes_deep_view, string_bytes, string_from_bytes, Payload};
use vstd::prelude::*;
use vstd::utf8::*;

verus! {

/// The origin of a failure at the call boundary.
#[derive(Clone, Copy, Debug, PartialEq, Eq, Structural)]
pub enum ErrorKind {
    /// A value could not be encoded.
    Serialization,
    /// A response could not be decoded.
    Deserialization,
    /// The input of a call could not be parsed: the client sent bad input.
    Args,
    /// The transport failed to carry the call.
    Transport,
    /// The handler reported an uncategorized failure.
    Server,
}

/// A failure of encoding, decoding, transport or handler, with its detail text.
#[derive(Clone, Debug)]
pub struct CallError {
    pub kind: ErrorKind,
    pub detail: String,
}

impl View for CallError {
    type V = (ErrorKind, Seq<char>);

    open spec fn view(&self) -> (ErrorKind, Seq<char>) {
        (self.kind, self.detail@)
    }
}

impl CallError {
    pub fn new(kind: ErrorKind, detail: String) -> (r: CallError)
        ensures
            r@ == (kind, detail@),
    {
        CallError { kind, detail }
    }
}

/// Why a text was refused by the upper-casing operation.
#[derive(Clone, Copy, Debug, PartialEq, Eq, Structural)]
pub enum InvalidArgument {
    TooShort,
    TooLong,
    NotAscii,
}

impl View for InvalidArgument {
    type V = InvalidArgument;

    open spec fn view(&self) -> InvalidArgument {
        *self
    }
}

/// The name of each reason, as it is shown and parsed.
pub open spec fn invalid_argument_name(a: InvalidArgument) -> Seq<char> {
    match a {
        InvalidArgument::TooShort => "TooShort"@,
        InvalidArgument::TooLong => "TooLong"@,
        InvalidArgument::NotAscii => "NotAscii"@,
    }
}

impl InvalidArgument {
    /// The variant's name.
    pub fn name(&self) -> (r: String)
        ensures
            r@ == invalid_argument_name(*self),
    {
        match self {
            InvalidArgument::TooShort => "TooShort".to_owned(),
            InvalidArgument::TooLong => "TooLong".to_owned(),
            InvalidArgument::NotAscii => "NotAscii".to_owned(),
        }
    }
}

/// An application error type: a domain reason, a boundary failure, or any other message.
#[derive(Clone, Debug)]
pub enum MyErrors {
    InvalidArgument(InvalidArgument),
    ServerFnError(CallError),
    Other(String),
}

/// What a `MyErrors` value holds, as plain values.
pub enum MyErrorsModel {
    InvalidArgument(InvalidArgument),
    ServerFnError((ErrorKind, Seq<char>)),
    Other(Seq<char>),
}

impl View for MyErrors {
    type V = MyErrorsModel;

    open spec fn view(&self) -> MyErrorsModel {
        match self {
            MyErrors::InvalidArgument(a) => MyErrorsModel::InvalidArgument(*a),
            MyErrors::ServerFnError(e) => MyErrorsModel::ServerFnError(e@),
            MyErrors::Other(s) => MyErrorsModel::Other(s@),
        }
    }
}

impl From<InvalidArgument> for MyErrors {
    fn from(value: InvalidArgument) -> (r: MyErrors) {
        MyErrors::InvalidArgument(value)
    }
}

impl vstd::std_specs::convert::FromSpecImpl<InvalidArgument> for MyErrors {
    open spec fn obeys_from_spec() -> bool {
        true
    }

    open spec fn from_spec(v: InvalidArgument) -> MyErrors {
        MyErrors::InvalidArgument(v)
    }
}

impl From<String> for MyErrors {
    fn from(value: String) -> (r: MyErrors) {
        MyErrors::Other(value)
    }
}

impl vstd::std_specs::convert::FromSpecImpl<String> for MyErrors {
    open spec fn obeys_from_spec() -> bool {
        true
    }

    open spec fn from_spec(v: String) -> MyErrors {
        MyErrors::Other(v)
    }
}

/// An error type that every boundary failure converts into.
pub trait FromServerFnError: Sized + View {
    /// What a boundary failure becomes.
    spec fn from_server_fn_error_spec(e: (ErrorKind, Seq<char>)) -> Self::V;

    fn from_server_fn_error(e: CallError) -> (r: Self)
        ensures
            r@ == Self::from_server_fn_error_spec(e@),
    ;
}

impl FromServerFnError for CallError {
    open spec fn from_server_fn_error_spec(e: (ErrorKind, Seq<char>)) -> (ErrorKind, Seq<char>) {
        e
    }

    fn from_server_fn_error(e: CallError) -> (r: CallError) {
        e
    }
}

impl FromServerFnError for MyErrors {
    open spec fn from_server_fn_error_spec(e: (ErrorKind, Seq<char>)) -> MyErrorsModel {
        MyErrorsModel::ServerFnError(e)
    }

    fn from_server_fn_error(e: CallError) -> (r: MyErrors) {
        MyErrors::ServerFnError(e)
    }
}

/// The byte that stands for each kind on the wire.
pub open spec fn kind_tag(k: ErrorKind) -> u8 {
    match k {
        ErrorKind::Serialization => 0,
        ErrorKind::Deserialization => 1,
        ErrorKind::Args => 2,
        ErrorKind::Transport => 3,
        ErrorKind::Server => 4,
    }
}

fn kind_to_tag(k: ErrorKind) -> (r: u8)
    ensures
        r == kind_tag(k),
{
    match k {
        ErrorKind::Serialization => 0,
        ErrorKind::Deserialization => 1,
        ErrorKind::Args => 2,
        ErrorKind::Transport => 3,
        ErrorKind::Server => 4,
    }
}

fn kind_from_tag(t: u8) -> (r: Option<ErrorKind>)
    ensures
        r matches Some(k) ==> kind_tag(k) == t,
        r is None ==> forall|k: ErrorKind| kind_tag(k) != t,
{
    match t {
        0 => Some(ErrorKind::Serialization),
        1 => Some(ErrorKind::Deserialization),
        2 => Some(ErrorKind::Args),
        3 => Some(ErrorKind::Transport),
        4 => Some(ErrorKind::Server),
        _ => None,
    }
}

/// The byte that stands for each reason on the wire.
pub open spec fn invalid_argument_tag(a: InvalidArgument) -> u8 {
    match a {
        InvalidArgument::TooShort => 0,
        InvalidArgument::TooLong => 1,
        InvalidArgument::NotAscii => 2,
    }
}

fn invalid_argument_from_tag(t: u8) -> (r: Option<InvalidArgument>)
    ensures
        r matches Some(a) ==> invalid_argument_tag(a) == t,
        r is None ==> forall|a: InvalidArgument| invalid_argument_tag(a) != t,
{
    match t {
        0 => Some(InvalidArgument::TooShort),
        1 => Some(InvalidArgument::TooLong),
        2 => Some(InvalidArgument::NotAscii),
        _ => None,
    }
}

/// The byte of a field that holds exactly one byte.
fn single_byte(f: &Vec<u8>) -> (r: Option<u8>)
    ensures
        r matches Some(b) ==> f@ == seq![b],
        r is None ==> forall|b: u8| f@ != seq![b],
{
    if f.len() == 1 {
        proof {
            assert(f@ =~= seq![f@[0]]);
        }
        Some(f[0])
    } else {
        proof {
            assert forall|b: u8| f@ != seq![b] by {
                assert(seq![b].len() == 1);
            }
        }
        None
    }
}

impl Payload for InvalidArgument {
    open spec fn fields_of(v: InvalidArgument) -> Seq<Seq<u8>> {
        seq![seq![invalid_argument_tag(v)]]
    }

    proof fn lemma_fields_injective(a: InvalidArgument, b: InvalidArgument) {
        assert(Self::fields_of(a)[0] == seq![invalid_argument_tag(a)]);
        assert(Self::fields_of(b)[0] == seq![invalid_argument_tag(b)]);
        assert(seq![invalid_argument_tag(a)][0] == invalid_argument_tag(a));
        assert(seq![invalid_argument_tag(b)][0] == invalid_argument_tag(b));
        assert(invalid_argument_tag(a) == invalid_argument_tag(b));
    }

    fn to_fields(&self) -> (r: Vec<Vec<u8>>) {
        let t: u8 = match self {
            InvalidArgument::TooShort => 0,
            InvalidArgument::TooLong => 1,
            InvalidArgument::NotAscii => 2,
        };
        let r = vec![vec![t]];
        proof {
            lemma_bytes_deep_view(&r[0]);
            assert(r[0]@ =~= seq![t]);
            assert(r.deep_view()[0] == r[0].deep_view());
            assert(r.deep_view() =~= Self::fields_of(*self));
        }
        r
    }

    fn from_fields(fs: &Vec<Vec<u8>>) -> (r: Option<InvalidArgument>) {
        proof {
            assert(fs.deep_view().len() == fs.len());
        }
        if fs.len() != 1 {
            return None;
        }
        proof {
            lemma_bytes_deep_view(&fs[0]);
        }
        match single_byte(&fs[0]) {
            None => {
                proof {
                    assert forall|v: InvalidArgument| Self::fields_of(v) != fs.deep_view() by {
                        if Self::fields_of(v) == fs.deep_view() {
                            assert(Self::fields_of(v)[0] == fs.deep_view()[0]);
                        }
                    }
                }
                None
            },
            Some(t) => {
                let r = invalid_argument_from_tag(t);
                proof {
                    if r is Some {
                        assert(Self::fields_of(r->0) =~= fs.deep_view());
                    } else {
                        assert forall|v: InvalidArgument| Self::fields_of(v) != fs.deep_view() by {
                            if Self::fields_of(v) == fs.deep_view() {
                                assert(Self::fields_of(v)[0] == fs.deep_view()[0]);
                                assert(Self::fields_of(v)[0] == seq![invalid_argument_tag(v)]);
                                assert(seq![invalid_argument_tag(v)][0] == invalid_argument_tag(v));
                                assert(seq![t][0] == t);
                            }
                        }
                    }
                }
                r
            },
        }
    }
}

impl Payload for CallError {
    open spec fn fields_of(v: (ErrorKind, Seq<char>)) -> Seq<Seq<u8>> {
        seq![seq![kind_tag(v.0)], encode_utf8(v.1)]
    }

    proof fn lemma_fields_injective(a: (ErrorKind, Seq<char>), b: (ErrorKind, Seq<char>)) {
        assert(Self::fields_of(a)[0] == seq![kind_tag(a.0)]);
        assert(Self::fields_of(b)[0] == seq![kind_tag(b.0)]);
        assert(seq![kind_tag(a.0)][0] == kind_tag(a.0));
        assert(seq![kind_tag(b.0)][0] == kind_tag(b.0));
        assert(kind_tag(a.0) == kind_tag(b.0));
        assert(Self::fields_of(a)[1] == Self::fields_of(b)[1]);
        encode_utf8_decode_utf8(a.1);
        encode_utf8_decode_utf8(b.1);
    }

    fn to_fields(&self) -> (r: Vec<Vec<u8>>) {
        let t = kind_to_tag(self.kind);
        let r = vec![vec![t], string_bytes(&self.detail)];
        proof {
            lemma_bytes_deep_view(&r[0]);
            lemma_bytes_deep_view(&r[1]);
            assert(r[0]@ =~= seq![t]);
            assert(r.deep_view()[0] == r[0].deep_view());
            assert(r.deep_view()[1] == r[1].deep_view());
            assert(r.deep_view() =~= Self::fields_of(self@));
        }
        r
    }

    fn from_fields(fs: &Vec<Vec<u8>>) -> (r: Option<CallError>) {
        proof {
            assert(fs.deep_view().len() == fs.len());
        }
        if fs.len() != 2 {
            return None;
        }
        proof {
            lemma_bytes_deep_view(&fs[0]);
            lemma_bytes_deep_view(&fs[1]);
        }
        let tag = single_byte(&fs[0]);
        let kind = match tag {
            None => None,
            Some(t) => kind_from_tag(t),
        };
        let detail = string_from_bytes(&fs[1]);
        match (kind, detail) {
            (Some(k), Some(d)) => {
                let r = CallError { kind: k, detail: d };
                proof {
                    assert(seq![kind_tag(k)] =~= fs[0]@);
                    assert(Self::fields_of(r@) =~= fs.deep_view());
                }
                Some(r)
            },
            _ => {
                proof {
                    assert forall|v: (ErrorKind, Seq<char>)| Self::fields_of(v) != fs.deep_view() by {
                        if Self::fields_of(v) == fs.deep_view() {
                            assert(Self::fields_of(v)[0] == fs.deep_view()[0]);
                            assert(Self::fields_of(v)[1] == fs.deep_view()[1]);
                            assert(Self::fields_of(v)[0] == seq![kind_tag(v.0)]);
                            assert(seq![kind_tag(v.0)][0] == kind_tag(v.0));
                            if tag is Some {
                                assert(seq![tag->0][0] == tag->0);
                            }
                        }
                    }
                }
                None
            },
        }
    }
}

impl Payload for MyErrors {
    open spec fn fields_of(v: MyErrorsModel) -> Seq<Seq<u8>> {
        match v {
            MyErrorsModel::InvalidArgument(a) => seq![seq![0u8], seq![invalid_argument_tag(a)]],
            MyErrorsModel::ServerFnError(e) => seq![seq![1u8], seq![kind_tag(e.0)], encode_utf8(e.1)],
            MyErrorsModel::Other(s) => seq![seq![2u8], encode_utf8(s)],
        }
    }

    proof fn lemma_fields_injective(a: MyErrorsModel, b: MyErrorsModel) {
        let fa = Self::fields_of(a);
        let fb = Self::fields_of(b);
        assert(fa[0][0] == fb[0][0]);
        match a {
            MyErrorsModel::InvalidArgument(x) => {
                assert(fa[1][0] == fb[1][0]);
            },
            MyErrorsModel::ServerFnError(e) => {
                assert(fa[1][0] == fb[1][0]);
                assert(fa[2] == fb[2]);
                encode_utf8_decode_utf8(e.1);
                if let MyErrorsModel::ServerFnError(f) = b {
                    encode_utf8_decode_utf8(f.1);
                }
            },
            MyErrorsModel::Other(s) => {
                assert(fa[1] == fb[1]);
                encode_utf8_decode_utf8(s);
                if let MyErrorsModel::Other(t) = b {
                    encode_utf8_decode_utf8(t);
                }
            },
        }
    }

    fn to_fields(&self) -> (r: Vec<Vec<u8>>) {
        match self {
            MyErrors::InvalidArgument(a) => {
                let mut r = vec![vec![0u8]];
                let mut rest = a.to_fields();
                let ghost rd = rest.deep_view();
                r.append(&mut rest);
                proof {
                    lemma_bytes_deep_view(&r[0]);
                    assert(r[0]@ =~= seq![0u8]);
                    assert(r.deep_view() =~= seq![seq![0u8]] + rd);
                    assert(r.deep_view() =~= Self::fields_of(self@));
                }
                r
            },
            MyErrors::ServerFnError(e) => {
                let mut r = vec![vec![1u8]];
                let mut rest = e.to_fields();
                let ghost rd = rest.deep_view();
                r.append(&mut rest);
                proof {
                    lemma_bytes_deep_view(&r[0]);
                    assert(r[0]@ =~= seq![1u8]);
                    assert(r.deep_view() =~= seq![seq![1u8]] + rd);
                    assert(r.deep_view() =~= Self::fields_of(self@));
                }
                r
            },
            MyErrors::Other(s) => {
                let r = vec![vec![2u8], string_bytes(s)];
                proof {
                    lemma_bytes_deep_view(&r[0]);
                    lemma_bytes_deep_view(&r[1]);
                    assert(r[0]@ =~= seq![2u8]);
                    assert(r.deep_view()[0] == r[0].deep_view());
                    assert(r.deep_view()[1] == r[1].deep_view());
                    assert(r.deep_view() =~= Self::fields_of(self@));
                }
                r
            },
        }
    }

    fn from_fields(fs: &Vec<Vec<u8>>) -> (r: Option<MyErrors>) {
        proof {
            assert(fs.deep_view().len() == fs.len());
        }
        if fs.len() < 2 {
            proof {
                assert forall|v: MyErrorsModel| Self::fields_of(v) != fs.deep_view() by {
                    assert(Self::fields_of(v).len() >= 2);
                }
            }
            return None;
        }
        proof {
            lemma_bytes_deep_view(&fs[0]);
        }
        let tag = single_byte(&fs[0]);
        let rest: Vec<Vec<u8>> = slice_rest(fs);
        let r = match tag {
            Some(0) => match InvalidArgument::from_fields(&rest) {
                Some(a) => Some(MyErrors::InvalidArgument(a)),
                None => None,
            },
            Some(1) => match CallError::from_fields(&rest) {
                Some(e) => Some(MyErrors::ServerFnError(e)),
                None => None,
            },
            Some(2) => match String::from_fields(&rest) {
                Some(s) => Some(MyErrors::Other(s)),
                None => None,
            },
            _ => None,
        };
        proof {
            assert(fs.deep_view() =~= seq![fs.deep_view()[0]] + rest.deep_view());
            if r is Some {
                assert(Self::fields_of(r->0@) =~= fs.deep_view());
            } else {
                assert forall|v: MyErrorsModel| Self::fields_of(v) != fs.deep_view() by {
                    if Self::fields_of(v) == fs.deep_view() {
                        let fv = Self::fields_of(v);
                        assert(fv[0] == fs.deep_view()[0]);
                        assert(fs[0]@ == fs.deep_view()[0]);
                        assert(seq![0u8][0] == 0u8);
                        assert(seq![1u8][0] == 1u8);
                        assert(seq![2u8][0] == 2u8);
                        if tag is Some {
                            assert(seq![tag->0][0] == tag->0);
                        }
                        match v {
                            MyErrorsModel::InvalidArgument(a) => {
                                assert(InvalidArgument::fields_of(a) =~= rest.deep_view());
                            },
                            MyErrorsModel::ServerFnError(e) => {
                                assert(CallError::fields_of(e) =~= rest.deep_view());
                            },
                            MyErrorsModel::Other(s) => {
                                assert(String::fields_of(s) =~= rest.deep_view());
                            },
                        }
                    }
                }
            }
        }
        r
    }
}

/// All fields but the first.
fn slice_rest(fs: &Vec<Vec<u8>>) -> (r: Vec<Vec<u8>>)
    requires
        fs.len() > 0,
    ensures
        r.deep_view() == fs.deep_view().drop_first(),
{
    let mut r: Vec<Vec<u8>> = Vec::new();
    let mut i: usize = 1;
    while i < fs.len()
        invariant
            1 <= i <= fs.len(),
            r.deep_view() == fs.deep_view().subrange(1, i as int),
        decreases fs.len() - i,
    {
        let ghost before = r.deep_view();
        r.push(fs[i].clone());
        proof {
            assert(r.deep_view() =~= before.push(fs.deep_view()[i as int]));
            assert(fs.deep_view().subrange(1, i + 1) =~= fs.deep_view().subrange(1, i as int).push(
                fs.deep_view()[i as int],
            ));
        }
        i = i + 1;
    }
    proof {
        assert(fs.deep_view().subrange(1, fs.len() as int) =~= fs.deep_view().drop_first());
    }
    r
}

} // verus!
