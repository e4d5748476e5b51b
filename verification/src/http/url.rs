use vstd::prelude::*;
use crate::error::{is_bad_request, AppError};
use crate::engine::handler::http::opt_str_view;
use crate::text::{is_blank, trim};

verus! {

/// Payload for registering a new URL to monitor.
#[derive(Debug)]
pub struct CreateUrl {
    pub domain: String,
    pub name: String,
    pub check_interval_seconds: Option<i32>,
    pub expected_content: Option<String>,
}

/// Payload for partially updating an existing URL. Every field is optional
/// so callers only send what they want to change.
#[derive(Debug)]
pub struct UpdateUrl {
    pub domain: Option<String>,
    pub name: Option<String>,
    pub check_interval_seconds: Option<i32>,
    pub expected_content: Option<String>,
    pub is_active: Option<bool>,
}

/// The pattern a domain must match: dot-terminated labels of 1 to 63
/// letters, digits and inner hyphens, then a top-level domain of 2 to 63
/// letters.
pub const DOMAIN_PATTERN: &'static str = r"^(?:[a-zA-Z0-9](?:[a-zA-Z0-9-]{0,61}[a-zA-Z0-9])?\.)+[a-zA-Z]{2,63}$";

/// What the `regex` crate answers when `pattern` is compiled with
/// `Regex::new` and then matched against `haystack` with `Regex::is_match`:
/// `None` when the pattern does not compile. Named, not written out.
pub uninterp spec fn regex_verdict(pattern: Seq<char>, haystack: Seq<char>) -> Option<bool>;

/// Compiles `pattern` with `regex::Regex::new` and, if it compiles, tests
/// `haystack` with `Regex::is_match`. The contract states only the name of
/// the result: it is a function of the pattern and the haystack alone.
#[verifier::external_body]
fn regex_is_match(pattern: &str, haystack: &str) -> (r: Option<bool>)
    ensures
        r == regex_verdict(pattern@, haystack@),
{
    match regex::Regex::new(pattern) {
        Ok(re) => Some(re.is_match(haystack)),
        Err(_) => None,
    }
}

/// What the domain pattern says of a domain.
pub open spec fn domain_verdict(domain: Seq<char>) -> Option<bool> {
    regex_verdict(DOMAIN_PATTERN@, domain)
}

/// Whether `r` is the outcome of checking the fields of a URL payload, given
/// what the domain pattern said of the domain (`domain_match`): fields that
/// are absent are not checked; a present domain must not be blank and must
/// match the pattern, a present name must not be blank and a present
/// interval must be positive, and the first field that fails decides the
/// error. A pattern that does not compile is an internal error.
pub open spec fn url_fields_outcome(
    domain: Option<Seq<char>>,
    name: Option<Seq<char>>,
    secs: Option<i32>,
    domain_match: Option<bool>,
    r: Result<(), AppError>,
) -> bool {
    if domain is Some && trim(domain->Some_0).len() == 0 {
        r is Err && is_bad_request(r->Err_0, "domain must not be empty"@)
    } else if domain is Some && domain_match is None {
        r is Err && r->Err_0 is Internal
    } else if domain is Some && domain_match == Some(false) {
        r is Err && is_bad_request(r->Err_0, "domain must be valid TLD"@)
    } else if name is Some && trim(name->Some_0).len() == 0 {
        r is Err && is_bad_request(r->Err_0, "name must not be empty"@)
    } else if secs is Some && secs->Some_0 <= 0 {
        r is Err && is_bad_request(r->Err_0, "check_interval_seconds must be positive"@)
    } else {
        r is Ok
    }
}

/// Checks the fields of a URL payload, given what the domain pattern said
/// of the domain.
pub fn check_url_fields(
    domain: Option<&str>,
    name: Option<&str>,
    check_interval_seconds: Option<i32>,
    domain_match: Option<bool>,
) -> (r: Result<(), AppError>)
    ensures
        url_fields_outcome(opt_str_view(domain), opt_str_view(name), check_interval_seconds, domain_match, r),
{
    if let Some(domain) = domain {
        if is_blank(domain) {
            return Err(AppError::BadRequest("domain must not be empty".to_owned()));
        }
        match domain_match {
            None => return Err(AppError::Internal("invalid domain regex".to_owned())),
            Some(false) => return Err(AppError::BadRequest("domain must be valid TLD".to_owned())),
            Some(true) => {},
        }
    }
    if let Some(name) = name {
        if is_blank(name) {
            return Err(AppError::BadRequest("name must not be empty".to_owned()));
        }
    }
    if let Some(secs) = check_interval_seconds {
        if secs <= 0 {
            return Err(AppError::BadRequest("check_interval_seconds must be positive".to_owned()));
        }
    }
    Ok(())
}

/// The fields of a URL payload that are validated.
pub trait UrlPayload {
    /// The domain, if the payload sets it.
    spec fn spec_domain(&self) -> Option<Seq<char>>;

    /// The display name, if the payload sets it.
    spec fn spec_name(&self) -> Option<Seq<char>>;

    /// The check interval, if the payload sets it.
    spec fn spec_check_interval_seconds(&self) -> Option<i32>;

    fn domain(&self) -> (r: Option<&str>)
        ensures
            opt_str_view(r) == self.spec_domain(),
    ;

    fn name(&self) -> (r: Option<&str>)
        ensures
            opt_str_view(r) == self.spec_name(),
    ;

    fn check_interval_seconds(&self) -> (r: Option<i32>)
        ensures
            r == self.spec_check_interval_seconds(),
    ;

    /// Validates the fields that the payload sets; the domain is matched
    /// against `DOMAIN_PATTERN` with the `regex` crate.
    fn validate(&self) -> (r: Result<(), AppError>)
        ensures
            url_fields_outcome(
                self.spec_domain(),
                self.spec_name(),
                self.spec_check_interval_seconds(),
                match self.spec_domain() {
                    Some(d) => domain_verdict(d),
                    None => None,
                },
                r,
            ),
    {
        let domain = self.domain();
        let domain_match = match domain {
            Some(d) => {
                if is_blank(d) {
                    None
                } else {
                    regex_is_match(DOMAIN_PATTERN, d)
                }
            },
            None => None,
        };
        proof {
            if let Some(d) = domain {
                if trim(d@).len() != 0 {
                    assert(domain_match == domain_verdict(d@));
                }
            }
        }
        check_url_fields(domain, self.name(), self.check_interval_seconds(), domain_match)
    }
}

impl UrlPayload for CreateUrl {
    open spec fn spec_domain(&self) -> Option<Seq<char>> {
        Some(self.domain@)
    }

    open spec fn spec_name(&self) -> Option<Seq<char>> {
        Some(self.name@)
    }

    open spec fn spec_check_interval_seconds(&self) -> Option<i32> {
        self.check_interval_seconds
    }

    fn domain(&self) -> (r: Option<&str>) {
        Some(self.domain.as_str())
    }

    fn name(&self) -> (r: Option<&str>) {
        Some(self.name.as_str())
    }

    fn check_interval_seconds(&self) -> (r: Option<i32>) {
        self.check_interval_seconds
    }
}

impl UrlPayload for UpdateUrl {
    open spec fn spec_domain(&self) -> Option<Seq<char>> {
        match self.domain {
            Some(d) => Some(d@),
            None => None,
        }
    }

    open spec fn spec_name(&self) -> Option<Seq<char>> {
        match self.name {
            Some(n) => Some(n@),
            None => None,
        }
    }

    open spec fn spec_check_interval_seconds(&self) -> Option<i32> {
        self.check_interval_seconds
    }

    fn domain(&self) -> (r: Option<&str>) {
        match &self.domain {
            Some(d) => Some(d.as_str()),
            None => None,
        }
    }

    fn name(&self) -> (r: Option<&str>) {
        match &self.name {
            Some(n) => Some(n.as_str()),
            None => None,
        }
    }

    fn check_interval_seconds(&self) -> (r: Option<i32>) {
        self.check_interval_seconds
    }
}


/// A domain is judged by the domain pattern and nothing else: labels of
/// letters, digits and inner hyphens, each of 1 to 63 characters and
/// followed by a dot, then a top-level domain of 2 to 63 letters.
pub proof fn lemma_domain_judged_by_pattern(domain: Seq<char>)
    ensures
        DOMAIN_PATTERN@ == r"^(?:[a-zA-Z0-9](?:[a-zA-Z0-9-]{0,61}[a-zA-Z0-9])?\.)+[a-zA-Z]{2,63}$"@,
        domain_verdict(domain)
            == regex_verdict(r"^(?:[a-zA-Z0-9](?:[a-zA-Z0-9-]{0,61}[a-zA-Z0-9])?\.)+[a-zA-Z]{2,63}$"@, domain),
{
}

/// A patch that sets no field is always valid, whatever the pattern says;
/// fields that a payload leaves unset are never checked.
pub proof fn lemma_unset_fields_are_not_checked(
    name: Option<Seq<char>>,
    secs: Option<i32>,
    m1: Option<bool>,
    m2: Option<bool>,
    r1: Result<(), AppError>,
    r2: Result<(), AppError>,
)
    ensures
        url_fields_outcome(None, None, None, m1, r1) ==> r1 is Ok,
        url_fields_outcome(None, name, secs, m1, r1) && url_fields_outcome(None, name, secs, m2, r2)
            ==> (r1 is Ok <==> r2 is Ok),
{
}

} // verus!
