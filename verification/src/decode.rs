//! The log decoder: raw text holding one JSON array of record objects is
//! turned into an ordered batch of `LogRecord`s, or decoding fails on the
//! first invalid record, naming the field that failed.
//!
//! The JSON reading itself, the date-and-time parsing and the URL check are
//! done by outside crates behind the trusted items below; every contract
//! above them speaks through the names given to those crates' results.

use crate::record::{method_of, DecodeError, HttpMethod, LogRecord, LogRecordView, Timestamp};
use vstd::prelude::*;
use vstd::string::StringSliceAdditionalSpecFns;
use vstd::utf8::encode_utf8;

verus! {

/// `serde_json`'s JSON tree, carried through the decoder as an opaque value.
#[verifier::external_type_specification]
#[verifier::external_body]
pub struct ExJsonValue(serde_json::Value);

/// What `serde_json::from_str` yields for the given text when asked for an
/// array of JSON values: the elements in document order, or nothing where
/// the text is not such an array.
pub uninterp spec fn json_array_of(text: Seq<char>) -> Option<Seq<serde_json::Value>>;

/// What looking the given key up in the given JSON value yields, where the
/// value is an object and holds the key as a JSON string: that string's
/// UTF-8 bytes; nothing otherwise.
pub uninterp spec fn str_field_of(v: serde_json::Value, key: Seq<char>) -> Option<Seq<u8>>;

/// What looking the given key up in the given JSON value yields, where the
/// value is an object holding the key as an object of strings: its
/// name-to-value pairs as UTF-8 bytes, in `serde_json`'s iteration order;
/// nothing otherwise.
pub uninterp spec fn str_map_field_of(v: serde_json::Value, key: Seq<char>) -> Option<
    Seq<(Seq<u8>, Seq<u8>)>,
>;

/// The instant that `chrono` reads from the given UTF-8 text under the
/// fixed `YYYY-MM-DD HH:MM:SS[.fraction] UTC` format: seconds since the
/// Unix epoch and the fraction's nanoseconds; nothing where the text is not
/// such a date and time.
pub uninterp spec fn utc_datetime_of(s: Seq<u8>) -> Option<(i64, u32)>;

/// Whether the given UTF-8 text is a parseable absolute URL.
pub uninterp spec fn url_valid(s: Seq<u8>) -> bool;

/// Relies on `serde_json::from_str`: deserializing `Vec<serde_json::Value>`
/// parses the text as one JSON array and hands its elements out in document
/// order, and fails exactly where the text is not such an array.
#[verifier::external_body]
fn parse_json_array(text: &str) -> (r: Result<Vec<serde_json::Value>, String>)
    ensures
        r matches Ok(v) ==> json_array_of(text@) == Some(v@),
        r is Err <==> json_array_of(text@) is None,
{
    serde_json::from_str::<Vec<serde_json::Value>>(text).map_err(|e| e.to_string())
}

/// Relies on `serde_json::Value::get` and `Value::as_str`: the named
/// field's text, where the value is an object holding the key as a string.
#[verifier::external_body]
fn get_str_field(v: &serde_json::Value, key: &str) -> (r: Option<String>)
    ensures
        r matches Some(s) ==> str_field_of(*v, key@) == Some(encode_utf8(s@)),
        r is None <==> str_field_of(*v, key@) is None,
{
    match v.get(key) {
        Some(x) => x.as_str().map(|s| s.to_owned()),
        None => None,
    }
}

/// Relies on `serde_json::Value::get`, `Value::as_str` and
/// `Value::as_object` with `serde_json::Map`'s iteration: the named field's
/// name-to-value pairs, where the value is an object holding the key as an
/// object of strings.
#[verifier::external_body]
fn get_str_map_field(v: &serde_json::Value, key: &str) -> (r: Option<Vec<(String, String)>>)
    ensures
        r matches Some(h) ==> str_map_field_of(*v, key@) == Some(
            h@.map_values(|p: (String, String)| (encode_utf8(p.0@), encode_utf8(p.1@))),
        ),
        r is None <==> str_map_field_of(*v, key@) is None,
{
    let obj = match v.get(key) {
        Some(x) => match x.as_object() {
            Some(o) => o,
            None => return None,
        },
        None => return None,
    };
    let mut out = Vec::new();
    for (k, val) in obj.iter() {
        match val.as_str() {
            Some(s) => out.push((k.clone(), s.to_owned())),
            None => return None,
        }
    }
    Some(out)
}

/// Relies on `chrono::NaiveDateTime::parse_from_str` under the fixed format
/// `%Y-%m-%d %H:%M:%S%.f UTC`, and on `DateTime::timestamp` and
/// `DateTime::timestamp_subsec_nanos`: the parsed instant depends on the
/// text alone.
#[verifier::external_body]
fn parse_utc_datetime(s: &str) -> (r: Option<Timestamp>)
    ensures
        r matches Some(t) ==> utc_datetime_of(s.spec_bytes()) == Some((t.secs, t.nanos)),
        r is None <==> utc_datetime_of(s.spec_bytes()) is None,
{
    match chrono::NaiveDateTime::parse_from_str(s, "%Y-%m-%d %H:%M:%S%.f UTC") {
        Ok(dt) => {
            let utc = dt.and_utc();
            Some(Timestamp { secs: utc.timestamp(), nanos: utc.timestamp_subsec_nanos() })
        },
        Err(_) => None,
    }
}

/// Relies on `reqwest::Url::parse`: whether the text is a parseable
/// absolute URL depends on the text alone.
#[verifier::external_body]
fn check_url(s: &str) -> (r: bool)
    ensures
        r == url_valid(s.spec_bytes()),
{
    reqwest::Url::parse(s).is_ok()
}

/// Why one record object failed, at the mathematical level: the field that
/// is missing or mistyped, or the offending field value's bytes.
pub ghost enum EntryErr {
    Field(Seq<char>),
    Timestamp(Seq<u8>),
    Url(Seq<u8>),
    Method(Seq<u8>),
}

/// Whether the executable error surfaces exactly the given mathematical
/// one: same variant, and the same field name or offending value.
pub open spec fn error_matches(e: DecodeError, se: EntryErr) -> bool {
    match (e, se) {
        (DecodeError::Field(s), EntryErr::Field(k)) => s@ == k,
        (DecodeError::Timestamp(s), EntryErr::Timestamp(b)) => encode_utf8(s@) == b,
        (DecodeError::Url(s), EntryErr::Url(b)) => encode_utf8(s@) == b,
        (DecodeError::Method(s), EntryErr::Method(b)) => encode_utf8(s@) == b,
        _ => false,
    }
}

/// What one JSON record object decodes to: a record view, or the first
/// failure among its fields — a missing or mistyped field first, then a
/// malformed timestamp, URL and method, in that order.
pub open spec fn entry_result(v: serde_json::Value) -> Result<LogRecordView, EntryErr> {
    match str_field_of(v, "accessed_at"@) {
        None => Err(EntryErr::Field("accessed_at"@)),
        Some(acc) => match str_field_of(v, "url"@) {
            None => Err(EntryErr::Field("url"@)),
            Some(url) => match str_field_of(v, "http_method"@) {
                None => Err(EntryErr::Field("http_method"@)),
                Some(m) => match str_map_field_of(v, "http_header"@) {
                    None => Err(EntryErr::Field("http_header"@)),
                    Some(hdr) => match str_field_of(v, "http_body"@) {
                        None => Err(EntryErr::Field("http_body"@)),
                        Some(body) => match utc_datetime_of(acc) {
                            None => Err(EntryErr::Timestamp(acc)),
                            Some((secs, nanos)) => if !url_valid(url) {
                                Err(EntryErr::Url(url))
                            } else {
                                match method_of(m) {
                                    None => Err(EntryErr::Method(m)),
                                    Some(meth) => Ok(
                                        LogRecordView {
                                            accessed_at: Timestamp { secs, nanos },
                                            url,
                                            http_method: meth,
                                            http_header: hdr,
                                            http_body: body,
                                        },
                                    ),
                                }
                            },
                        },
                    },
                },
            },
        },
    }
}

/// What a sequence of JSON record objects decodes to: every record, in
/// order, or the first failure with its position.
pub open spec fn entries_result(vals: Seq<serde_json::Value>) -> Result<
    Seq<LogRecordView>,
    (int, EntryErr),
>
    decreases vals.len(),
{
    if vals.len() == 0 {
        Ok(Seq::empty())
    } else {
        match entries_result(vals.drop_last()) {
            Err(ie) => Err(ie),
            Ok(pre) => match entry_result(vals.last()) {
                Err(e) => Err((vals.len() - 1, e)),
                Ok(rec) => Ok(pre.push(rec)),
            },
        }
    }
}

/// What the whole text decodes to: nothing where it is not a JSON array,
/// else the array's decoding.
pub open spec fn decoded_records(text: Seq<char>) -> Option<
    Result<Seq<LogRecordView>, (int, EntryErr)>,
> {
    match json_array_of(text) {
        None => None,
        Some(vals) => Some(entries_result(vals)),
    }
}

/// A record is well formed once its target is a parseable absolute URL;
/// its method and instant are valid by construction.
pub open spec fn record_wf(rv: LogRecordView) -> bool {
    url_valid(rv.url)
}

/// Decoding never constructs an ill-formed record: a record set that
/// decodes does so into well-formed records only.
pub proof fn lemma_entries_ok_wf(vals: Seq<serde_json::Value>)
    requires
        entries_result(vals) is Ok,
    ensures
        forall|k: int|
            0 <= k < entries_result(vals)->Ok_0.len() ==> record_wf(
                #[trigger] entries_result(vals)->Ok_0[k],
            ),
    decreases vals.len(),
{
    if vals.len() > 0 {
        lemma_entries_ok_wf(vals.drop_last());
    }
}

/// A failure among the first entries decides the whole batch: no later
/// entry can change it.
proof fn lemma_error_persists(vals: Seq<serde_json::Value>, i: int, k: int)
    requires
        0 <= i <= k <= vals.len(),
        entries_result(vals.subrange(0, i)) is Err,
    ensures
        entries_result(vals.subrange(0, k)) == entries_result(vals.subrange(0, i)),
    decreases k - i,
{
    if k > i {
        lemma_error_persists(vals, i, k - 1);
        assert(vals.subrange(0, k).drop_last() =~= vals.subrange(0, k - 1));
    }
}

/// Decodes one JSON record object into a `LogRecord`, validating every
/// field as `entry_result` states.
pub fn record_from_value(v: &serde_json::Value) -> (r: Result<LogRecord, DecodeError>)
    ensures
        entry_result(*v) matches Ok(rv) ==> r matches Ok(rec) && rec@ == rv,
        entry_result(*v) matches Err(se) ==> r matches Err(e) && error_matches(e, se),
{
    let acc = match get_str_field(v, "accessed_at") {
        Some(s) => s,
        None => {
            return Err(DecodeError::Field("accessed_at".to_owned()));
        },
    };
    let url = match get_str_field(v, "url") {
        Some(s) => s,
        None => {
            return Err(DecodeError::Field("url".to_owned()));
        },
    };
    let m = match get_str_field(v, "http_method") {
        Some(s) => s,
        None => {
            return Err(DecodeError::Field("http_method".to_owned()));
        },
    };
    let hdr = match get_str_map_field(v, "http_header") {
        Some(h) => h,
        None => {
            return Err(DecodeError::Field("http_header".to_owned()));
        },
    };
    let body = match get_str_field(v, "http_body") {
        Some(s) => s,
        None => {
            return Err(DecodeError::Field("http_body".to_owned()));
        },
    };
    let ts = match parse_utc_datetime(acc.as_str()) {
        Some(t) => t,
        None => {
            return Err(DecodeError::Timestamp(acc));
        },
    };
    if !check_url(url.as_str()) {
        return Err(DecodeError::Url(url));
    }
    let meth = match HttpMethod::from_token(m.as_str()) {
        Some(meth) => meth,
        None => {
            return Err(DecodeError::Method(m));
        },
    };
    let rec = LogRecord {
        accessed_at: ts,
        url,
        http_method: meth,
        http_header: hdr,
        http_body: body,
    };
    proof {
        let rv = entry_result(*v)->Ok_0;
        assert(rec@ =~= rv);
    }
    Ok(rec)
}

/// Decodes raw log text: one JSON array of record objects becomes the
/// ordered batch of records, or the first invalid record's failure, exactly
/// as `decoded_records` states.
pub fn resolve_log_text(text: &str) -> (r: Result<Vec<LogRecord>, DecodeError>)
    ensures
        match decoded_records(text@) {
            None => r matches Err(e) && e is Json,
            Some(Ok(recs)) => r matches Ok(v) && v@.map_values(|rec: LogRecord| rec@) == recs,
            Some(Err((i, se))) => r matches Err(e) && error_matches(e, se),
        },
        r matches Ok(v) ==> forall|k: int|
            0 <= k < v@.len() ==> record_wf(#[trigger] v@[k]@),
{
    let vals = match parse_json_array(text) {
        Ok(v) => v,
        Err(msg) => {
            return Err(DecodeError::Json(msg));
        },
    };
    let mut out: Vec<LogRecord> = Vec::new();
    let mut i: usize = 0;
    proof {
        assert(vals@.subrange(0, 0) =~= Seq::<serde_json::Value>::empty());
        assert(out@.map_values(|r2: LogRecord| r2@) =~= Seq::<LogRecordView>::empty());
    }
    while i < vals.len()
        invariant
            0 <= i <= vals@.len(),
            json_array_of(text@) == Some(vals@),
            out@.len() == i,
            entries_result(vals@.subrange(0, i as int)) == Ok::<_, (int, EntryErr)>(
                out@.map_values(|rec: LogRecord| rec@),
            ),
        decreases vals@.len() - i,
    {
        let ghost pre = vals@.subrange(0, i as int);
        let rec = match record_from_value(&vals[i]) {
            Ok(rec) => rec,
            Err(e) => {
                proof {
                    let ext = vals@.subrange(0, i + 1);
                    assert(ext.drop_last() =~= pre);
                    assert(ext.last() == vals@[i as int]);
                    assert(entries_result(ext) == Err::<Seq<LogRecordView>, _>(
                        (i as int, entry_result(vals@[i as int])->Err_0),
                    ));
                    lemma_error_persists(vals@, i + 1, vals@.len() as int);
                    assert(vals@.subrange(0, vals@.len() as int) =~= vals@);
                }
                return Err(e);
            },
        };
        let ghost out_pre = out@;
        out.push(rec);
        proof {
            let ext = vals@.subrange(0, i + 1);
            assert(ext.drop_last() =~= pre);
            assert(ext.last() == vals@[i as int]);
            assert(out@.map_values(|r2: LogRecord| r2@) =~= out_pre.map_values(
                |r2: LogRecord| r2@,
            ).push(rec@));
            assert(entries_result(ext) == Ok::<_, (int, EntryErr)>(
                out@.map_values(|r2: LogRecord| r2@),
            ));
        }
        i = i + 1;
    }
    proof {
        assert(vals@.subrange(0, vals@.len() as int) =~= vals@);
        lemma_entries_ok_wf(vals@);
        assert forall|k: int| 0 <= k < out@.len() implies record_wf(#[trigger] out@[k]@) by {
            assert(entries_result(vals@) == Ok::<_, (int, EntryErr)>(
                out@.map_values(|r2: LogRecord| r2@),
            ));
            assert(record_wf(entries_result(vals@)->Ok_0[k]));
            assert(entries_result(vals@)->Ok_0[k] == out@[k]@);
        }
    }
    Ok(out)
}

/// Decoding is a function of the text alone: two decodings of the same
/// text yield the same records, field for field (or the same failure), so
/// decoding the same valid text twice is idempotent.
pub proof fn lemma_decode_deterministic(t1: Seq<char>, t2: Seq<char>)
    requires
        t1 == t2,
    ensures
        decoded_records(t1) == decoded_records(t2),
{
}

} // verus!
