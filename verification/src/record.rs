//! The log record model: one recorded HTTP access, held as plain values.

use vstd::prelude::*;
use vstd::string::StringSliceAdditionalSpecFns;
use vstd::utf8::encode_utf8;

verus! {

/// An absolute UTC instant: whole seconds since the Unix epoch together
/// with the nanoseconds of the fraction.
#[derive(Clone, Copy, Debug, PartialEq, Eq, Structural)]
pub struct Timestamp {
    pub secs: i64,
    pub nanos: u32,
}

impl Timestamp {
    /// The instant as one count of nanoseconds since the Unix epoch.
    pub open spec fn total_nanos(self) -> int {
        self.secs * 1_000_000_000 + self.nanos
    }
}

/// A recognized HTTP verb.
#[derive(Clone, Copy, Debug, PartialEq, Eq, Structural)]
pub enum HttpMethod {
    Get,
    Post,
    Put,
    Delete,
    Head,
    Options,
    Connect,
    Patch,
    Trace,
}

/// Which verb a method token, given as its UTF-8 bytes, names.
pub open spec fn method_of(s: Seq<u8>) -> Option<HttpMethod> {
    if s == seq![71u8, 69, 84] {
        Some(HttpMethod::Get)
    } else if s == seq![80u8, 79, 83, 84] {
        Some(HttpMethod::Post)
    } else if s == seq![80u8, 85, 84] {
        Some(HttpMethod::Put)
    } else if s == seq![68u8, 69, 76, 69, 84, 69] {
        Some(HttpMethod::Delete)
    } else if s == seq![72u8, 69, 65, 68] {
        Some(HttpMethod::Head)
    } else if s == seq![79u8, 80, 84, 73, 79, 78, 83] {
        Some(HttpMethod::Options)
    } else if s == seq![67u8, 79, 78, 78, 69, 67, 84] {
        Some(HttpMethod::Connect)
    } else if s == seq![80u8, 65, 84, 67, 72] {
        Some(HttpMethod::Patch)
    } else if s == seq![84u8, 82, 65, 67, 69] {
        Some(HttpMethod::Trace)
    } else {
        None
    }
}

impl HttpMethod {
    /// Parses a method token; only the recognized verbs are accepted.
    pub fn from_token(s: &str) -> (r: Option<HttpMethod>)
        ensures
            r == method_of(s.spec_bytes()),
    {
        let b = s.as_bytes();
        let r = if b.len() == 3 && b[0] == 71 && b[1] == 69 && b[2] == 84 {
            Some(HttpMethod::Get)
        } else if b.len() == 4 && b[0] == 80 && b[1] == 79 && b[2] == 83 && b[3] == 84 {
            Some(HttpMethod::Post)
        } else if b.len() == 3 && b[0] == 80 && b[1] == 85 && b[2] == 84 {
            Some(HttpMethod::Put)
        } else if b.len() == 6 && b[0] == 68 && b[1] == 69 && b[2] == 76 && b[3] == 69 && b[4]
            == 84 && b[5] == 69 {
            Some(HttpMethod::Delete)
        } else if b.len() == 4 && b[0] == 72 && b[1] == 69 && b[2] == 65 && b[3] == 68 {
            Some(HttpMethod::Head)
        } else if b.len() == 7 && b[0] == 79 && b[1] == 80 && b[2] == 84 && b[3] == 73 && b[4]
            == 79 && b[5] == 78 && b[6] == 83 {
            Some(HttpMethod::Options)
        } else if b.len() == 7 && b[0] == 67 && b[1] == 79 && b[2] == 78 && b[3] == 78 && b[4]
            == 69 && b[5] == 67 && b[6] == 84 {
            Some(HttpMethod::Connect)
        } else if b.len() == 5 && b[0] == 80 && b[1] == 65 && b[2] == 84 && b[3] == 67 && b[4]
            == 72 {
            Some(HttpMethod::Patch)
        } else if b.len() == 5 && b[0] == 84 && b[1] == 82 && b[2] == 65 && b[3] == 67 && b[4]
            == 69 {
            Some(HttpMethod::Trace)
        } else {
            None
        };
        proof {
            let bs = s.spec_bytes();
            if r is Some {
                assert(bs =~= seq![71u8, 69, 84] || bs =~= seq![80u8, 79, 83, 84] || bs =~= seq![
                    80u8,
                    85,
                    84,
                ] || bs =~= seq![68u8, 69, 76, 69, 84, 69] || bs =~= seq![72u8, 69, 65, 68] || bs
                    =~= seq![79u8, 80, 84, 73, 79, 78, 83] || bs =~= seq![
                    67u8,
                    79,
                    78,
                    78,
                    69,
                    67,
                    84,
                ] || bs =~= seq![80u8, 65, 84, 67, 72] || bs =~= seq![84u8, 82, 65, 67, 69]);
            }
        }
        r
    }
}

/// One recorded access: the instant it originally fired, and the request
/// to replay (target URL, verb, headers, body).
#[derive(Clone, Debug, PartialEq, Eq)]
pub struct LogRecord {
    pub accessed_at: Timestamp,
    pub url: String,
    pub http_method: HttpMethod,
    pub http_header: Vec<(String, String)>,
    pub http_body: String,
}

/// The mathematical shape of a record: texts as their UTF-8 bytes.
#[verifier::ext_equal]
pub ghost struct LogRecordView {
    pub accessed_at: Timestamp,
    pub url: Seq<u8>,
    pub http_method: HttpMethod,
    pub http_header: Seq<(Seq<u8>, Seq<u8>)>,
    pub http_body: Seq<u8>,
}

impl View for LogRecord {
    type V = LogRecordView;

    open spec fn view(&self) -> LogRecordView {
        LogRecordView {
            accessed_at: self.accessed_at,
            url: encode_utf8(self.url@),
            http_method: self.http_method,
            http_header: self.http_header@.map_values(
                |p: (String, String)| (encode_utf8(p.0@), encode_utf8(p.1@)),
            ),
            http_body: encode_utf8(self.http_body@),
        }
    }
}

/// Why decoding a batch of records failed; each variant carries the
/// offending field's name, value or the parser's message.
#[derive(Clone, Debug, PartialEq, Eq)]
pub enum DecodeError {
    /// The text is not a JSON array of objects.
    Json(String),
    /// A record lacks the named field, or the field's JSON type is wrong.
    Field(String),
    /// An `accessed_at` value is not a `YYYY-MM-DD HH:MM:SS[.fraction] UTC`
    /// date and time.
    Timestamp(String),
    /// A `url` value is not a parseable absolute URL.
    Url(String),
    /// An `http_method` value is not a recognized HTTP verb.
    Method(String),
}

} // verus!
