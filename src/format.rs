use vstd::prelude::*;

verus! {

/// How the payload of a wire format is framed on the transport.
#[derive(Clone, Copy, Debug, PartialEq, Eq, Structural)]
pub enum Framing {
    Text,
    Binary,
    Stream,
}

/// The HTTP-like method a call under a wire format must use.
#[derive(Clone, Copy, Debug, PartialEq, Eq, Structural)]
pub enum Method {
    Get,
    Post,
}

/// A serialization and transport convention: content type, framing and method.
pub struct WireFormat {
    pub content_type: String,
    pub framing: Framing,
    pub method: Method,
}

impl WireFormat {
    /// The default text format, carried in a POST body.
    pub fn json() -> (r: WireFormat)
        ensures
            r.content_type@ == "application/json"@,
            r.framing == Framing::Text,
            r.method == Method::Post,
    {
        WireFormat { content_type: "application/json".to_owned(), framing: Framing::Text, method: Method::Post }
    }

    /// A text format whose input travels in the URL query.
    pub fn url() -> (r: WireFormat)
        ensures
            r.content_type@ == "application/x-www-form-urlencoded"@,
            r.framing == Framing::Text,
            r.method == Method::Get,
    {
        WireFormat {
            content_type: "application/x-www-form-urlencoded".to_owned(),
            framing: Framing::Text,
            method: Method::Get,
        }
    }

    /// A compact binary format, carried in a POST body.
    pub fn rkyv() -> (r: WireFormat)
        ensures
            r.content_type@ == "application/rkyv"@,
            r.framing == Framing::Binary,
            r.method == Method::Post,
    {
        WireFormat { content_type: "application/rkyv".to_owned(), framing: Framing::Binary, method: Method::Post }
    }

    /// Another compact binary format, carried in a POST body.
    pub fn postcard() -> (r: WireFormat)
        ensures
            r.content_type@ == "application/x-postcard"@,
            r.framing == Framing::Binary,
            r.method == Method::Post,
    {
        WireFormat {
            content_type: "application/x-postcard".to_owned(),
            framing: Framing::Binary,
            method: Method::Post,
        }
    }

    /// A body of form fields, each read in chunks.
    pub fn multipart() -> (r: WireFormat)
        ensures
            r.content_type@ == "multipart/form-data"@,
            r.framing == Framing::Binary,
            r.method == Method::Post,
    {
        WireFormat { content_type: "multipart/form-data".to_owned(), framing: Framing::Binary, method: Method::Post }
    }

    /// A response that arrives as a sequence of text chunks.
    pub fn streaming_text() -> (r: WireFormat)
        ensures
            r.content_type@ == "text/plain; charset=utf-8"@,
            r.framing == Framing::Stream,
            r.method == Method::Post,
    {
        WireFormat {
            content_type: "text/plain; charset=utf-8".to_owned(),
            framing: Framing::Stream,
            method: Method::Post,
        }
    }

    /// True when payloads under this format are text, so that a body is read as a string.
    pub fn is_text(&self) -> (r: bool)
        ensures
            r == (self.framing == Framing::Text || self.framing == Framing::Stream),
    {
        match self.framing {
            Framing::Text => true,
            Framing::Binary => false,
            Framing::Stream => true,
        }
    }

    /// True when a response under this format is a sequence of chunks.
    pub fn is_streaming(&self) -> (r: bool)
        ensures
            r == (self.framing == Framing::Stream),
    {
        self.framing == Framing::Stream
    }

    /// True when the input of a call travels in the URL query rather than in a body.
    pub fn input_in_url(&self) -> (r: bool)
        ensures
            r == (self.method == Method::Get),
    {
        self.method == Method::Get
    }
}

/// The TOML text format.
pub struct Toml;

impl Toml {
    pub fn format() -> (r: WireFormat)
        ensures
            r.content_type@ == "application/toml"@,
            r.framing == Framing::Text,
            r.method == Method::Post,
    {
        WireFormat { content_type: "application/toml".to_owned(), framing: Framing::Text, method: Method::Post }
    }
}

} // verus!
