use vstd::prelude::*;
use crate::num::parse_micros;
use crate::num::spec_micros;

verus! {

/// HTTP request method, normalized into a closed set. Anything outside the
/// six recognized verbs collapses into `OTHER`, so the set of label values
/// stays bounded whatever the log contains.
#[derive(Clone, Copy, Debug, PartialEq, Eq, Hash, Structural)]
pub enum Method {
    GET,
    PUT,
    POST,
    PATCH,
    OPTIONS,
    DELETE,
    OTHER,
}

/// One decoded access-log record, reduced to the fields the statistics
/// consume. The response time is held in whole microseconds, truncated,
/// clamped to `[0, u64::MAX]`.
#[derive(Clone, Copy, Debug, PartialEq, Eq, Structural)]
pub struct RequestRecord {
    pub method: Method,
    pub status: u64,
    pub resp_body_size: u64,
    pub request_length: u64,
    pub resp_time_micros: u64,
}

/// A line that does not decode as a request record. It carries nothing: the
/// caller counts it and moves on.
#[derive(Clone, Copy, Debug, PartialEq, Eq, Structural)]
pub struct DecodeError;

/// The unsigned integer held by field `name` of the JSON object written as
/// `line`; `None` when the line is not a JSON object, the field is missing,
/// or the field holds anything but an unsigned 64-bit integer.
pub uninterp spec fn u64_field(line: Seq<char>, name: Seq<char>) -> Option<u64>;

/// The string held by field `name` of the JSON object written as `line`;
/// `None` when the line is not a JSON object, the field is missing, or the
/// field holds anything but a string.
pub uninterp spec fn str_field(line: Seq<char>, name: Seq<char>) -> Option<Seq<char>>;

/// The decimal text, as a JSON encoder prints it, of the number held by
/// field `name` of the JSON object written as `line`; `None` when the line
/// is not a JSON object, the field is missing, or the field holds anything
/// but a number.
pub uninterp spec fn num_field(line: Seq<char>, name: Seq<char>) -> Option<Seq<u8>>;

/// Relies on serde_json::from_str, Value::get and Value::as_u64: reads the
/// unsigned integer field `name` of the JSON object in `line`. The outcome
/// is a function of the two strings alone.
#[verifier::external_body]
fn json_u64_field(line: &str, name: &str) -> (r: Option<u64>)
    ensures
        r == u64_field(line@, name@),
{
    match serde_json::from_str::<serde_json::Value>(line) {
        Ok(v) => match v.get(name) {
            Some(f) => f.as_u64(),
            None => None,
        },
        Err(_) => None,
    }
}

/// Relies on serde_json::from_str, Value::get and Value::as_str: reads the
/// string field `name` of the JSON object in `line`. The outcome is a
/// function of the two strings alone.
#[verifier::external_body]
fn json_string_field(line: &str, name: &str) -> (r: Option<String>)
    ensures
        r is Some <==> str_field(line@, name@) is Some,
        r is Some ==> r.unwrap()@ == str_field(line@, name@).unwrap(),
{
    match serde_json::from_str::<serde_json::Value>(line) {
        Ok(v) => match v.get(name) {
            Some(f) => match f.as_str() {
                Some(s) => Some(s.to_owned()),
                None => None,
            },
            None => None,
        },
        Err(_) => None,
    }
}

/// Relies on serde_json::from_str, Value::get and Number's text form: reads
/// the number field `name` of the JSON object in `line` as the decimal text
/// serde_json prints for it. The outcome is a function of the two strings
/// alone.
#[verifier::external_body]
fn json_number_field(line: &str, name: &str) -> (r: Option<Vec<u8>>)
    ensures
        r is Some <==> num_field(line@, name@) is Some,
        r is Some ==> r.unwrap()@ == num_field(line@, name@).unwrap(),
{
    match serde_json::from_str::<serde_json::Value>(line) {
        Ok(v) => match v.get(name) {
            Some(serde_json::Value::Number(n)) => Some(n.to_string().into_bytes()),
            _ => None,
        },
        Err(_) => None,
    }
}

/// Normalization of a method string into the closed verb set. The match is
/// exact and case-sensitive; anything else is `OTHER`.
pub open spec fn spec_method_of(s: Seq<char>) -> Method {
    if s == "GET"@ {
        Method::GET
    } else if s == "PUT"@ {
        Method::PUT
    } else if s == "POST"@ {
        Method::POST
    } else if s == "PATCH"@ {
        Method::PATCH
    } else if s == "OPTIONS"@ {
        Method::OPTIONS
    } else if s == "DELETE"@ {
        Method::DELETE
    } else {
        Method::OTHER
    }
}

/// The record denoted by one log line, if it decodes: the line must be a
/// JSON object holding every required field with its required type, and the
/// response time must read as a decimal number. The method is normalized,
/// the response time scaled to microseconds.
pub open spec fn record_of(line: Seq<char>) -> Option<RequestRecord> {
    if str_field(line, "source"@) is Some && num_field(line, "time"@) is Some && u64_field(
        line,
        "resp_body_size"@,
    ) is Some && str_field(line, "host"@) is Some && str_field(line, "address"@) is Some
        && u64_field(line, "request_length"@) is Some && str_field(line, "method"@) is Some
        && str_field(line, "uri"@) is Some && u64_field(line, "status"@) is Some && str_field(
        line,
        "user_agent"@,
    ) is Some && num_field(line, "resp_time"@) is Some && str_field(line, "upstream_addr"@)
        is Some && spec_micros(num_field(line, "resp_time"@).unwrap()) is Some {
        Some(
            RequestRecord {
                method: spec_method_of(str_field(line, "method"@).unwrap()),
                status: u64_field(line, "status"@).unwrap(),
                resp_body_size: u64_field(line, "resp_body_size"@).unwrap(),
                request_length: u64_field(line, "request_length"@).unwrap(),
                resp_time_micros: spec_micros(num_field(line, "resp_time"@).unwrap()).unwrap(),
            },
        )
    } else {
        None
    }
}

/// Normalize a method string into the closed verb set.
pub fn method_of(s: &String) -> (m: Method)
    ensures
        m == spec_method_of(s@),
{
    if *s == "GET".to_owned() {
        Method::GET
    } else if *s == "PUT".to_owned() {
        Method::PUT
    } else if *s == "POST".to_owned() {
        Method::POST
    } else if *s == "PATCH".to_owned() {
        Method::PATCH
    } else if *s == "OPTIONS".to_owned() {
        Method::OPTIONS
    } else if *s == "DELETE".to_owned() {
        Method::DELETE
    } else {
        Method::OTHER
    }
}

fn probe() {
    proof {
        reveal_strlit("GET");
        reveal_strlit("PUT");
        assert("PUT"@.len() == 3);
        assert("PUT"@[0] == 'P');
        assert("GET"@[0] == 'G');
        assert("PUT"@ != "GET"@);
    }
}

/// The verb text that [`Method::name`] renders for each method.
pub open spec fn spec_method_name(m: Method) -> Seq<char> {
    match m {
        Method::GET => "GET"@,
        Method::PUT => "PUT"@,
        Method::POST => "POST"@,
        Method::PATCH => "PATCH"@,
        Method::OPTIONS => "OPTIONS"@,
        Method::DELETE => "DELETE"@,
        Method::OTHER => "OTHER"@,
    }
}

impl Method {
    /// The verb's text, for label rendering.
    pub fn name(&self) -> (s: String)
        ensures
            s@ == spec_method_name(*self),
    {
        match *self {
            Method::GET => "GET".to_owned(),
            Method::PUT => "PUT".to_owned(),
            Method::POST => "POST".to_owned(),
            Method::PATCH => "PATCH".to_owned(),
            Method::OPTIONS => "OPTIONS".to_owned(),
            Method::DELETE => "DELETE".to_owned(),
            Method::OTHER => "OTHER".to_owned(),
        }
    }
}

/// Rendering a method's text and normalizing it again gives the method
/// back: the verb set is closed under the round trip through its labels.
pub proof fn lemma_method_name_round_trip(m: Method)
    ensures
        spec_method_of(spec_method_name(m)) == m,
{
    reveal_strlit("GET");
    reveal_strlit("PUT");
    reveal_strlit("POST");
    reveal_strlit("PATCH");
    reveal_strlit("OPTIONS");
    reveal_strlit("DELETE");
    reveal_strlit("OTHER");
    assert("GET"@.len() == 3 && "GET"@[0] == 'G');
    assert("PUT"@.len() == 3 && "PUT"@[0] == 'P');
    assert("POST"@.len() == 4 && "POST"@[0] == 'P');
    assert("PATCH"@.len() == 5 && "PATCH"@[0] == 'P');
    assert("OPTIONS"@.len() == 7 && "OPTIONS"@[0] == 'O');
    assert("DELETE"@.len() == 6 && "DELETE"@[0] == 'D');
    assert("OTHER"@.len() == 5 && "OTHER"@[0] == 'O');
    assert("PUT"@ != "GET"@);
    assert("POST"@ != "GET"@ && "POST"@ != "PUT"@);
    assert("PATCH"@ != "GET"@ && "PATCH"@ != "PUT"@ && "PATCH"@ != "POST"@);
    assert("OPTIONS"@ != "GET"@ && "OPTIONS"@ != "PUT"@ && "OPTIONS"@ != "POST"@ && "OPTIONS"@
        != "PATCH"@);
    assert("DELETE"@ != "GET"@ && "DELETE"@ != "PUT"@ && "DELETE"@ != "POST"@ && "DELETE"@
        != "PATCH"@ && "DELETE"@ != "OPTIONS"@);
    assert("OTHER"@ != "GET"@ && "OTHER"@ != "PUT"@ && "OTHER"@ != "POST"@ && "OTHER"@ != "PATCH"@
        && "OTHER"@ != "OPTIONS"@ && "OTHER"@ != "DELETE"@);
}

/// Decode one log line into a request record, or report that it does not
/// decode. A failure carries nothing; the caller counts it and goes on with
/// the next line.
pub fn decode_line(line: &str) -> (r: Result<RequestRecord, DecodeError>)
    ensures
        r is Ok <==> record_of(line@) is Some,
        r is Ok ==> r.unwrap() == record_of(line@).unwrap(),
{
    if json_string_field(line, "source").is_none() {
        return Err(DecodeError);
    }
    if json_number_field(line, "time").is_none() {
        return Err(DecodeError);
    }
    let resp_body_size = match json_u64_field(line, "resp_body_size") {
        Some(v) => v,
        None => {
            return Err(DecodeError);
        },
    };
    if json_string_field(line, "host").is_none() {
        return Err(DecodeError);
    }
    if json_string_field(line, "address").is_none() {
        return Err(DecodeError);
    }
    let request_length = match json_u64_field(line, "request_length") {
        Some(v) => v,
        None => {
            return Err(DecodeError);
        },
    };
    let method_text = match json_string_field(line, "method") {
        Some(s) => s,
        None => {
            return Err(DecodeError);
        },
    };
    if json_string_field(line, "uri").is_none() {
        return Err(DecodeError);
    }
    let status = match json_u64_field(line, "status") {
        Some(v) => v,
        None => {
            return Err(DecodeError);
        },
    };
    if json_string_field(line, "user_agent").is_none() {
        return Err(DecodeError);
    }
    let time_text = match json_number_field(line, "resp_time") {
        Some(b) => b,
        None => {
            return Err(DecodeError);
        },
    };
    if json_string_field(line, "upstream_addr").is_none() {
        return Err(DecodeError);
    }
    let resp_time_micros = match parse_micros(&time_text) {
        Some(m) => m,
        None => {
            return Err(DecodeError);
        },
    };
    let method = method_of(&method_text);
    Ok(
        RequestRecord {
            method: method,
            status: status,
            resp_body_size: resp_body_size,
            request_length: request_length,
            resp_time_micros: resp_time_micros,
        },
    )
}

} // verus!
