//! Response status codes and their reason phrases.
use vstd::prelude::*;

verus! {

#[derive(Debug, Clone, Copy, PartialEq, Eq, Structural)]
pub enum Status {
    Continue,
    SwitchingProtocols,
    Processing,
    EarlyHints,
    OK,
    Created,
    Accepted,
    NonAuthoritativeInfo,
    NoContent,
    ResetContent,
    PartialContent,
    MultiStatus,
    AlreadyReported,
    IMUsed,
    MultipleChoices,
    MovedPermanently,
    Found,
    SeeOther,
    NotModified,
    UseProxy,
    TemporaryRedirect,
    PermanentRedirect,
    BadRequest,
    Unauthorized,
    PaymentRequired,
    Forbidden,
    NotFound,
    MethodNotAllowed,
    NotAcceptable,
    ProxyAuthRequired,
    RequestTimeout,
    Conflict,
    Gone,
    LengthRequired,
    PreconditionFailed,
    RequestEntityTooLarge,
    RequestURITooLong,
    UnsupportedMediaType,
    RequestedRangeNotSatisfiable,
    ExpectationFailed,
    Teapot,
    MisdirectedRequest,
    UnprocessableEntity,
    Locked,
    FailedDependency,
    TooEarly,
    UpgradeRequired,
    PreconditionRequired,
    TooManyRequests,
    RequestHeaderFieldsTooLarge,
    UnavailableForLegalReasons,
    InternalServerError,
    NotImplemented,
    BadGateway,
    ServiceUnavailable,
    GatewayTimeout,
    HTTPVersionNotSupported,
    VariantAlsoNegotiates,
    InsufficientStorage,
    LoopDetected,
    NotExtended,
    NetworkAuthenticationRequired,
}

impl Status {
    /// The numeric code.
    pub open spec fn code(self) -> u16 {
        match self {
            Status::Continue => 100,
            Status::SwitchingProtocols => 101,
            Status::Processing => 102,
            Status::EarlyHints => 103,
            Status::OK => 200,
            Status::Created => 201,
            Status::Accepted => 202,
            Status::NonAuthoritativeInfo => 203,
            Status::NoContent => 204,
            Status::ResetContent => 205,
            Status::PartialContent => 206,
            Status::MultiStatus => 207,
            Status::AlreadyReported => 208,
            Status::IMUsed => 226,
            Status::MultipleChoices => 300,
            Status::MovedPermanently => 301,
            Status::Found => 302,
            Status::SeeOther => 303,
            Status::NotModified => 304,
            Status::UseProxy => 305,
            Status::TemporaryRedirect => 307,
            Status::PermanentRedirect => 308,
            Status::BadRequest => 400,
            Status::Unauthorized => 401,
            Status::PaymentRequired => 402,
            Status::Forbidden => 403,
            Status::NotFound => 404,
            Status::MethodNotAllowed => 405,
            Status::NotAcceptable => 406,
            Status::ProxyAuthRequired => 407,
            Status::RequestTimeout => 408,
            Status::Conflict => 409,
            Status::Gone => 410,
            Status::LengthRequired => 411,
            Status::PreconditionFailed => 412,
            Status::RequestEntityTooLarge => 413,
            Status::RequestURITooLong => 414,
            Status::UnsupportedMediaType => 415,
            Status::RequestedRangeNotSatisfiable => 416,
            Status::ExpectationFailed => 417,
            Status::Teapot => 418,
            Status::MisdirectedRequest => 421,
            Status::UnprocessableEntity => 422,
            Status::Locked => 423,
            Status::FailedDependency => 424,
            Status::TooEarly => 425,
            Status::UpgradeRequired => 426,
            Status::PreconditionRequired => 428,
            Status::TooManyRequests => 429,
            Status::RequestHeaderFieldsTooLarge => 431,
            Status::UnavailableForLegalReasons => 451,
            Status::InternalServerError => 500,
            Status::NotImplemented => 501,
            Status::BadGateway => 502,
            Status::ServiceUnavailable => 503,
            Status::GatewayTimeout => 504,
            Status::HTTPVersionNotSupported => 505,
            Status::VariantAlsoNegotiates => 506,
            Status::InsufficientStorage => 507,
            Status::LoopDetected => 508,
            Status::NotExtended => 510,
            Status::NetworkAuthenticationRequired => 511,
        }
    }

    /// The reason phrase.
    pub open spec fn reason(self) -> Seq<char> {
        match self {
            Status::Continue => "Continue"@,
            Status::SwitchingProtocols => "Switching Protocols"@,
            Status::Processing => "Processing"@,
            Status::EarlyHints => "Early Hints"@,
            Status::OK => "OK"@,
            Status::Created => "Created"@,
            Status::Accepted => "Accepted"@,
            Status::NonAuthoritativeInfo => "Non-Authoritative Information"@,
            Status::NoContent => "No Content"@,
            Status::ResetContent => "Reset Content"@,
            Status::PartialContent => "Partial Content"@,
            Status::MultiStatus => "Multi-Status"@,
            Status::AlreadyReported => "Already Reported"@,
            Status::IMUsed => "IM Used"@,
            Status::MultipleChoices => "Multiple Choices"@,
            Status::MovedPermanently => "Moved Permanently"@,
            Status::Found => "Found"@,
            Status::SeeOther => "See Other"@,
            Status::NotModified => "Not Modified"@,
            Status::UseProxy => "Use Proxy"@,
            Status::TemporaryRedirect => "Temporary Redirect"@,
            Status::PermanentRedirect => "Permanent Redirect"@,
            Status::BadRequest => "Bad Request"@,
            Status::Unauthorized => "Unauthorized"@,
            Status::PaymentRequired => "Payment Required"@,
            Status::Forbidden => "Forbidden"@,
            Status::NotFound => "Not Found"@,
            Status::MethodNotAllowed => "Method Not Allowed"@,
            Status::NotAcceptable => "Not Acceptable"@,
            Status::ProxyAuthRequired => "Proxy Authentication Required"@,
            Status::RequestTimeout => "Request Timeout"@,
            Status::Conflict => "Conflict"@,
            Status::Gone => "Gone"@,
            Status::LengthRequired => "Length Required"@,
            Status::PreconditionFailed => "Precondition Failed"@,
            Status::RequestEntityTooLarge => "Request Entity Too Large"@,
            Status::RequestURITooLong => "Request URI Too Long"@,
            Status::UnsupportedMediaType => "Unsupported Media Type"@,
            Status::RequestedRangeNotSatisfiable => "Requested Range Not Satisfiable"@,
            Status::ExpectationFailed => "Expectation Failed"@,
            Status::Teapot => "Teapot"@,
            Status::MisdirectedRequest => "Misdirected Request"@,
            Status::UnprocessableEntity => "Unprocessable Entity"@,
            Status::Locked => "Locked"@,
            Status::FailedDependency => "Failed Dependency"@,
            Status::TooEarly => "Too Early"@,
            Status::UpgradeRequired => "Upgrade Required"@,
            Status::PreconditionRequired => "Precondition Required"@,
            Status::TooManyRequests => "Too Many Requests"@,
            Status::RequestHeaderFieldsTooLarge => "Request Header Fields Too Large"@,
            Status::UnavailableForLegalReasons => "Unavailable For Legal Reasons"@,
            Status::InternalServerError => "Internal Server Error"@,
            Status::NotImplemented => "Not Implemented"@,
            Status::BadGateway => "Bad Gateway"@,
            Status::ServiceUnavailable => "Service Unavailable"@,
            Status::GatewayTimeout => "Gateway Timeout"@,
            Status::HTTPVersionNotSupported => "HTTP Version Not Supported"@,
            Status::VariantAlsoNegotiates => "Variant Also Negotiates"@,
            Status::InsufficientStorage => "Insufficient Storage"@,
            Status::LoopDetected => "Loop Detected"@,
            Status::NotExtended => "Not Extended"@,
            Status::NetworkAuthenticationRequired => "Network Authentication Required"@,
        }
    }

    pub fn get_code(&self) -> (r: u16)
        ensures
            r == self.code(),
    {
        self.get_code_and_string().0
    }

    pub fn get_string(&self) -> (r: &'static str)
        ensures
            r@ == self.reason(),
    {
        self.get_code_and_string().1
    }

    /// The code and the reason phrase together.
    pub fn get_code_and_string(&self) -> (r: (u16, &'static str))
        ensures
            r.0 == self.code(),
            r.1@ == self.reason(),
    {
        match self {
            Status::Continue => (100, "Continue"),
            Status::SwitchingProtocols => (101, "Switching Protocols"),
            Status::Processing => (102, "Processing"),
            Status::EarlyHints => (103, "Early Hints"),
            Status::OK => (200, "OK"),
            Status::Created => (201, "Created"),
            Status::Accepted => (202, "Accepted"),
            Status::NonAuthoritativeInfo => (203, "Non-Authoritative Information"),
            Status::NoContent => (204, "No Content"),
            Status::ResetContent => (205, "Reset Content"),
            Status::PartialContent => (206, "Partial Content"),
            Status::MultiStatus => (207, "Multi-Status"),
            Status::AlreadyReported => (208, "Already Reported"),
            Status::IMUsed => (226, "IM Used"),
            Status::MultipleChoices => (300, "Multiple Choices"),
            Status::MovedPermanently => (301, "Moved Permanently"),
            Status::Found => (302, "Found"),
            Status::SeeOther => (303, "See Other"),
            Status::NotModified => (304, "Not Modified"),
            Status::UseProxy => (305, "Use Proxy"),
            Status::TemporaryRedirect => (307, "Temporary Redirect"),
            Status::PermanentRedirect => (308, "Permanent Redirect"),
            Status::BadRequest => (400, "Bad Request"),
            Status::Unauthorized => (401, "Unauthorized"),
            Status::PaymentRequired => (402, "Payment Required"),
            Status::Forbidden => (403, "Forbidden"),
            Status::NotFound => (404, "Not Found"),
            Status::MethodNotAllowed => (405, "Method Not Allowed"),
            Status::NotAcceptable => (406, "Not Acceptable"),
            Status::ProxyAuthRequired => (407, "Proxy Authentication Required"),
            Status::RequestTimeout => (408, "Request Timeout"),
            Status::Conflict => (409, "Conflict"),
            Status::Gone => (410, "Gone"),
            Status::LengthRequired => (411, "Length Required"),
            Status::PreconditionFailed => (412, "Precondition Failed"),
            Status::RequestEntityTooLarge => (413, "Request Entity Too Large"),
            Status::RequestURITooLong => (414, "Request URI Too Long"),
            Status::UnsupportedMediaType => (415, "Unsupported Media Type"),
            Status::RequestedRangeNotSatisfiable => (416, "Requested Range Not Satisfiable"),
            Status::ExpectationFailed => (417, "Expectation Failed"),
            Status::Teapot => (418, "Teapot"),
            Status::MisdirectedRequest => (421, "Misdirected Request"),
            Status::UnprocessableEntity => (422, "Unprocessable Entity"),
            Status::Locked => (423, "Locked"),
            Status::FailedDependency => (424, "Failed Dependency"),
            Status::TooEarly => (425, "Too Early"),
            Status::UpgradeRequired => (426, "Upgrade Required"),
            Status::PreconditionRequired => (428, "Precondition Required"),
            Status::TooManyRequests => (429, "Too Many Requests"),
            Status::RequestHeaderFieldsTooLarge => (431, "Request Header Fields Too Large"),
            Status::UnavailableForLegalReasons => (451, "Unavailable For Legal Reasons"),
            Status::InternalServerError => (500, "Internal Server Error"),
            Status::NotImplemented => (501, "Not Implemented"),
            Status::BadGateway => (502, "Bad Gateway"),
            Status::ServiceUnavailable => (503, "Service Unavailable"),
            Status::GatewayTimeout => (504, "Gateway Timeout"),
            Status::HTTPVersionNotSupported => (505, "HTTP Version Not Supported"),
            Status::VariantAlsoNegotiates => (506, "Variant Also Negotiates"),
            Status::InsufficientStorage => (507, "Insufficient Storage"),
            Status::LoopDetected => (508, "Loop Detected"),
            Status::NotExtended => (510, "Not Extended"),
            Status::NetworkAuthenticationRequired => (511, "Network Authentication Required"),
        }
    }

    /// The reason phrase, as an owned string.
    pub fn to_string(&self) -> (r: String)
        ensures
            r@ == self.reason(),
    {
        self.get_string().to_owned()
    }
}

impl Default for Status {
    fn default() -> (r: Status)
        ensures
            r == Status::OK,
    {
        Status::OK
    }
}

} // verus!
