use vstd::prelude::*;

use crate::bytes::{decimal_string, decimal_text};
use crate::decode::content_length_name;
use crate::message::{Response, Version, headers_view};

verus! {

/// The reason phrase of each status code that the table knows.
pub open spec fn reason_phrase(code: u32) -> Option<Seq<char>> {
    match code {
        100 => Some("Continue"@),
        101 => Some("Switching Protocols"@),
        102 => Some("Processing"@),
        103 => Some("Early Hints"@),
        200 => Some("OK"@),
        201 => Some("Created"@),
        202 => Some("Accepted"@),
        203 => Some("Non-Authorative Information"@),
        204 => Some("No Content"@),
        205 => Some("Reset Content"@),
        206 => Some("Partial Content"@),
        207 => Some("Multi-Status"@),
        208 => Some("Already Reporting"@),
        226 => Some("IM Used"@),
        300 => Some("Multiple Choices"@),
        301 => Some("Moved Permanently"@),
        302 => Some("Found"@),
        303 => Some("See Other"@),
        304 => Some("Not Modified"@),
        307 => Some("Temporary Redirect"@),
        308 => Some("Permanent Redirect"@),
        400 => Some("Bad Request"@),
        401 => Some("Unauthorized"@),
        403 => Some("Forbidden"@),
        404 => Some("Not Found"@),
        405 => Some("Method Not Allowed"@),
        406 => Some("Not Acceptable"@),
        407 => Some("Proxy Authentication Required"@),
        408 => Some("Request Timeout"@),
        409 => Some("Conflict"@),
        410 => Some("Gone"@),
        411 => Some("Length Required"@),
        412 => Some("Precondition Failed"@),
        413 => Some("Payload Too Large"@),
        414 => Some("URI Too Long"@),
        415 => Some("Unsupported Media Type"@),
        416 => Some("Range Not Satisfyable"@),
        417 => Some("Expectation Failed"@),
        418 => Some("I'm a teapot"@),
        421 => Some("Misdirect Request"@),
        422 => Some("Unprocessable Content"@),
        423 => Some("Locked"@),
        424 => Some("Failed Dependency"@),
        426 => Some("Upgrade Required"@),
        428 => Some("Precondition Required"@),
        429 => Some("Too Many Requests"@),
        431 => Some("Request Header Fields Too Large"@),
        451 => Some("Unavailable for Legal Reasons"@),
        500 => Some("Internal Server Error"@),
        501 => Some("Not Implemented"@),
        502 => Some("Bad Gateway"@),
        503 => Some("Service Unavailable"@),
        504 => Some("Gateway Timeout"@),
        505 => Some("HTTP Version Not Supported"@),
        506 => Some("Variant Also Negotiates"@),
        507 => Some("Insufficient Storage"@),
        508 => Some("Loop Detected"@),
        510 => Some("Not Extended"@),
        511 => Some("Network Authentication Required"@),
        _ => None,
    }
}

/// The phrase given to a status code that the table does not know.
pub open spec fn unknown_reason() -> Seq<char> {
    "Unknown Code"@
}

impl Response {
    /// The reason phrase of a status code, if the table knows it.
    pub fn message(code: u32) -> (r: Option<&'static str>)
        ensures
            r is None <==> reason_phrase(code) is None,
            r matches Some(s) ==> reason_phrase(code) == Some(s@),
    {
        match code {
            100 => Some("Continue"),
            101 => Some("Switching Protocols"),
            102 => Some("Processing"),
            103 => Some("Early Hints"),
            200 => Some("OK"),
            201 => Some("Created"),
            202 => Some("Accepted"),
            203 => Some("Non-Authorative Information"),
            204 => Some("No Content"),
            205 => Some("Reset Content"),
            206 => Some("Partial Content"),
            207 => Some("Multi-Status"),
            208 => Some("Already Reporting"),
            226 => Some("IM Used"),
            300 => Some("Multiple Choices"),
            301 => Some("Moved Permanently"),
            302 => Some("Found"),
            303 => Some("See Other"),
            304 => Some("Not Modified"),
            307 => Some("Temporary Redirect"),
            308 => Some("Permanent Redirect"),
            400 => Some("Bad Request"),
            401 => Some("Unauthorized"),
            403 => Some("Forbidden"),
            404 => Some("Not Found"),
            405 => Some("Method Not Allowed"),
            406 => Some("Not Acceptable"),
            407 => Some("Proxy Authentication Required"),
            408 => Some("Request Timeout"),
            409 => Some("Conflict"),
            410 => Some("Gone"),
            411 => Some("Length Required"),
            412 => Some("Precondition Failed"),
            413 => Some("Payload Too Large"),
            414 => Some("URI Too Long"),
            415 => Some("Unsupported Media Type"),
            416 => Some("Range Not Satisfyable"),
            417 => Some("Expectation Failed"),
            418 => Some("I'm a teapot"),
            421 => Some("Misdirect Request"),
            422 => Some("Unprocessable Content"),
            423 => Some("Locked"),
            424 => Some("Failed Dependency"),
            426 => Some("Upgrade Required"),
            428 => Some("Precondition Required"),
            429 => Some("Too Many Requests"),
            431 => Some("Request Header Fields Too Large"),
            451 => Some("Unavailable for Legal Reasons"),
            500 => Some("Internal Server Error"),
            501 => Some("Not Implemented"),
            502 => Some("Bad Gateway"),
            503 => Some("Service Unavailable"),
            504 => Some("Gateway Timeout"),
            505 => Some("HTTP Version Not Supported"),
            506 => Some("Variant Also Negotiates"),
            507 => Some("Insufficient Storage"),
            508 => Some("Loop Detected"),
            510 => Some("Not Extended"),
            511 => Some("Network Authentication Required"),
            _ => None,
        }
    }

    /// A response that carries `body`, with the reason phrase of `code` (or
    /// `Unknown Code`) and a `Content-Length` header that gives the body's length.
    pub fn serve_file_with_code(version: Version, code: u32, body: Vec<u8>) -> (r: Response)
        ensures
            r.version == version,
            r.code == code,
            r.message@ == (match reason_phrase(code) {
                Some(p) => p,
                None => unknown_reason(),
            }),
            headers_view(r.headers@) == seq![(content_length_name(), decimal_text(body@.len()))],
            r.body@ == body@,
    {
        let reason = match Response::message(code) {
            Some(p) => p,
            None => "Unknown Code",
        };
        let length = decimal_string(body.len() as u64);
        let name = String::from_str("Content-Length");
        let mut headers: Vec<(String, String)> = Vec::new();
        headers.push((name, length));
        let r = Response { version, code, message: String::from_str(reason), headers, body };
        assert(headers_view(r.headers@) =~= seq![(content_length_name(), decimal_text(r.body@.len()))]);
        r
    }

    /// A `200 OK` response that carries `body`.
    pub fn serve_file(version: Version, body: Vec<u8>) -> (r: Response)
        ensures
            r.version == version,
            r.code == 200,
            r.message@ == "OK"@,
            headers_view(r.headers@) == seq![(content_length_name(), decimal_text(body@.len()))],
            r.body@ == body@,
    {
        Response::serve_file_with_code(version, 200, body)
    }
}

} // verus!
