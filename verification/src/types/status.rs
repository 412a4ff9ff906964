//! Response status codes and their categories.

use vstd::prelude::*;

verus! {

/// A response status: a single byte out of the eighteen values the protocol
/// defines. Only the named constructors below can build one, so a `Status`
/// held by user code always satisfies [`Status::valid`].
#[derive(Debug, Clone, Copy, PartialEq, Eq, Structural)]
pub struct Status(u8);

/// The coarse class of a status, derived from the tens digit of its code.
/// Codes outside the six defined classes fall back to `PermanentFailure`.
#[derive(Debug, Clone, Copy, PartialEq, Eq, Structural)]
pub enum StatusCategory {
    Input,
    Success,
    Redirect,
    TemporaryFailure,
    PermanentFailure,
    ClientCertificateRequired,
}

impl View for Status {
    type V = u8;

    closed spec fn view(&self) -> u8 {
        self.0
    }
}

/// The category a status code of class `code / 10` belongs to. Total: any
/// class outside 1 through 6 maps to `PermanentFailure`.
pub open spec fn spec_category(code: u8) -> StatusCategory {
    let class = code / 10;
    if class == 1 {
        StatusCategory::Input
    } else if class == 2 {
        StatusCategory::Success
    } else if class == 3 {
        StatusCategory::Redirect
    } else if class == 4 {
        StatusCategory::TemporaryFailure
    } else if class == 5 {
        StatusCategory::PermanentFailure
    } else if class == 6 {
        StatusCategory::ClientCertificateRequired
    } else {
        StatusCategory::PermanentFailure
    }
}

/// The status codes that the protocol defines.
pub open spec fn status_code_defined(code: u8) -> bool {
    ||| code == 10
    ||| code == 11
    ||| code == 20
    ||| code == 30
    ||| code == 31
    ||| code == 40
    ||| code == 41
    ||| code == 42
    ||| code == 43
    ||| code == 44
    ||| code == 50
    ||| code == 51
    ||| code == 52
    ||| code == 53
    ||| code == 59
    ||| code == 60
    ||| code == 61
    ||| code == 62
}

impl Status {
    /// A status holds one of the eighteen defined codes.
    pub open spec fn valid(self) -> bool {
        status_code_defined(self@)
    }

    /// Status 10: input prompt.
    pub fn input() -> (s: Status)
        ensures
            s@ == 10,
    {
        Status(10)
    }

    /// Status 11: sensitive input prompt.
    pub fn sensitive_input() -> (s: Status)
        ensures
            s@ == 11,
    {
        Status(11)
    }

    /// Status 20: success.
    pub fn success() -> (s: Status)
        ensures
            s@ == 20,
    {
        Status(20)
    }

    /// Status 30: temporary redirect.
    pub fn redirect_temporary() -> (s: Status)
        ensures
            s@ == 30,
    {
        Status(30)
    }

    /// Status 31: permanent redirect.
    pub fn redirect_permanent() -> (s: Status)
        ensures
            s@ == 31,
    {
        Status(31)
    }

    /// Status 40: temporary failure.
    pub fn temporary_failure() -> (s: Status)
        ensures
            s@ == 40,
    {
        Status(40)
    }

    /// Status 41: server unavailable.
    pub fn server_unavailable() -> (s: Status)
        ensures
            s@ == 41,
    {
        Status(41)
    }

    /// Status 42: CGI error.
    pub fn cgi_error() -> (s: Status)
        ensures
            s@ == 42,
    {
        Status(42)
    }

    /// Status 43: proxy error.
    pub fn proxy_error() -> (s: Status)
        ensures
            s@ == 43,
    {
        Status(43)
    }

    /// Status 44: slow down.
    pub fn slow_down() -> (s: Status)
        ensures
            s@ == 44,
    {
        Status(44)
    }

    /// Status 50: permanent failure.
    pub fn permanent_failure() -> (s: Status)
        ensures
            s@ == 50,
    {
        Status(50)
    }

    /// Status 51: not found.
    pub fn not_found() -> (s: Status)
        ensures
            s@ == 51,
    {
        Status(51)
    }

    /// Status 52: gone.
    pub fn gone() -> (s: Status)
        ensures
            s@ == 52,
    {
        Status(52)
    }

    /// Status 53: proxy request refused.
    pub fn proxy_request_refused() -> (s: Status)
        ensures
            s@ == 53,
    {
        Status(53)
    }

    /// Status 59: bad request.
    pub fn bad_request() -> (s: Status)
        ensures
            s@ == 59,
    {
        Status(59)
    }

    /// Status 60: a client certificate is required.
    pub fn client_certificate_required() -> (s: Status)
        ensures
            s@ == 60,
    {
        Status(60)
    }

    /// Status 61: the client certificate is not authorized.
    pub fn certificate_not_authorized() -> (s: Status)
        ensures
            s@ == 61,
    {
        Status(61)
    }

    /// Status 62: the client certificate is not valid.
    pub fn certificate_not_valid() -> (s: Status)
        ensures
            s@ == 62,
    {
        Status(62)
    }

    /// The raw status code.
    pub fn code(&self) -> (c: u8)
        ensures
            c == self@,
    {
        self.0
    }

    /// Whether this status belongs to the success category.
    pub fn is_success(&self) -> (r: bool)
        ensures
            r == (spec_category(self@) is Success),
    {
        self.category().is_success()
    }

    /// The category of this status.
    pub fn category(&self) -> (c: StatusCategory)
        ensures
            c == spec_category(self@),
    {
        let class = self.0 / 10;
        match class {
            1 => StatusCategory::Input,
            2 => StatusCategory::Success,
            3 => StatusCategory::Redirect,
            4 => StatusCategory::TemporaryFailure,
            5 => StatusCategory::PermanentFailure,
            6 => StatusCategory::ClientCertificateRequired,
            _ => StatusCategory::PermanentFailure,
        }
    }
}

impl StatusCategory {
    /// Whether this is the input category.
    pub fn is_input(&self) -> (r: bool)
        ensures
            r == (*self is Input),
    {
        *self == Self::Input
    }

    /// Whether this is the success category.
    pub fn is_success(&self) -> (r: bool)
        ensures
            r == (*self is Success),
    {
        *self == Self::Success
    }

    /// Whether this is the redirect category.
    pub fn redirect(&self) -> (r: bool)
        ensures
            r == (*self is Redirect),
    {
        *self == Self::Redirect
    }

    /// Whether this is the temporary-failure category.
    pub fn is_temporary_failure(&self) -> (r: bool)
        ensures
            r == (*self is TemporaryFailure),
    {
        *self == Self::TemporaryFailure
    }

    /// Whether this is the permanent-failure category.
    pub fn is_permanent_failure(&self) -> (r: bool)
        ensures
            r == (*self is PermanentFailure),
    {
        *self == Self::PermanentFailure
    }

    /// Whether this is the client-certificate-required category.
    pub fn is_client_certificate_required(&self) -> (r: bool)
        ensures
            r == (*self is ClientCertificateRequired),
    {
        *self == Self::ClientCertificateRequired
    }
}

/// Every status code maps to exactly one category: codes of class 1 through 6
/// map to the class's own category, and every other code maps to
/// `PermanentFailure`.
pub proof fn lemma_status_category_totality(code: u8)
    ensures
        code / 10 == 1 ==> spec_category(code) is Input,
        code / 10 == 2 ==> spec_category(code) is Success,
        code / 10 == 3 ==> spec_category(code) is Redirect,
        code / 10 == 4 ==> spec_category(code) is TemporaryFailure,
        code / 10 == 5 ==> spec_category(code) is PermanentFailure,
        code / 10 == 6 ==> spec_category(code) is ClientCertificateRequired,
        code / 10 < 1 || code / 10 > 6 ==> spec_category(code) is PermanentFailure,
{
}

} // verus!
