use vstd::prelude::*;

verus! {

/// The `notAfter` time, as a UNIX timestamp, of the DER certificate `der`
/// when `x509_parser::parse_x509_certificate` reads it, or `None` when it
/// cannot read it. Named, not written out.
pub uninterp spec fn x509_not_after(der: Seq<u8>) -> Option<i64>;

/// Parses a DER certificate with `x509_parser::parse_x509_certificate` and
/// returns `tbs_certificate.validity.not_after.timestamp()`. The contract
/// states the name of the result: it depends on the bytes alone.
#[verifier::external_body]
fn certificate_not_after(der: &[u8]) -> (r: Option<i64>)
    ensures
        r == x509_not_after(der@),
{
    match x509_parser::parse_x509_certificate(der) {
        Ok((_, cert)) => Some(cert.tbs_certificate.validity.not_after.timestamp()),
        Err(_) => None,
    }
}

/// The first and the last UNIX timestamp, in seconds, that chrono can
/// represent: `from_timestamp` turns `secs` into the day
/// `secs.div_euclid(86400) + 719163` counted from the Common Era, and
/// accepts the days from January 1 of year -262143 (day -95746129) to
/// December 31 of year 262142 (day 95745399), chrono's `MIN_YEAR` and
/// `MAX_YEAR`.
pub open spec fn utc_timestamp_in_range(secs: i64) -> bool {
    -8334601228800 <= secs <= 8210266876799
}

/// Tests whether `chrono::DateTime::from_timestamp(secs, 0)` gives a time.
/// The contract states chrono's range, as its source computes it.
#[verifier::external_body]
fn timestamp_in_range(secs: i64) -> (r: bool)
    ensures
        r == utc_timestamp_in_range(secs),
{
    chrono::DateTime::from_timestamp(secs, 0).is_some()
}

/// Whether the certificate `der` gives an expiry time: it parses and its
/// `notAfter` lies in chrono's range.
pub open spec fn gives_expiry(der: Seq<u8>) -> bool {
    x509_not_after(der) matches Some(ts) && utc_timestamp_in_range(ts)
}

/// The index of the first certificate at or after `i` that gives an expiry
/// time, or `certs.len()` when none does.
pub open spec fn first_expiring(certs: Seq<Seq<u8>>, i: int) -> int
    decreases certs.len() - i,
{
    if i < 0 || i >= certs.len() {
        certs.len() as int
    } else if gives_expiry(certs[i]) {
        i
    } else {
        first_expiring(certs, i + 1)
    }
}

/// Of the certificates from index `i` on, `first_expiring` picks the first
/// one that gives an expiry: every certificate before it gives none, and it
/// gives one unless it is the end of the chain.
pub proof fn lemma_first_expiring_is_first(certs: Seq<Seq<u8>>, i: int)
    requires
        0 <= i <= certs.len(),
    ensures
        i <= first_expiring(certs, i) <= certs.len(),
        first_expiring(certs, i) < certs.len() ==> gives_expiry(certs[first_expiring(certs, i)]),
        forall|j: int| i <= j < first_expiring(certs, i) ==> !gives_expiry(#[trigger] certs[j]),
    decreases certs.len() - i,
{
    if i < certs.len() && !gives_expiry(certs[i]) {
        lemma_first_expiring_is_first(certs, i + 1);
    }
}

/// The expiry of the peer's certificate chain, as a UNIX timestamp: the
/// `notAfter` of the first certificate that parses and whose `notAfter`
/// chrono can represent; `None` when no certificate does.
pub fn certificate_expiry(certs: &Vec<Vec<u8>>) -> (r: Option<i64>)
    ensures
        ({
            let ders = certs@.map_values(|c: Vec<u8>| c@);
            let k = first_expiring(ders, 0);
            &&& (r is None <==> k == ders.len())
            &&& (r matches Some(ts) ==> x509_not_after(ders[k]) == Some(ts))
            &&& (r is None ==> forall|j: int| 0 <= j < ders.len() ==> !gives_expiry(#[trigger] ders[j]))
            &&& (r matches Some(ts) ==> exists|m: int|
                0 <= m < ders.len() && gives_expiry(ders[m]) && x509_not_after(ders[m]) == Some(ts)
                    && forall|j: int| 0 <= j < m ==> !gives_expiry(#[trigger] ders[j]))
        }),
{
    proof {
        let ders = certs@.map_values(|c: Vec<u8>| c@);
        lemma_first_expiring_is_first(ders, 0);
    }
    let ghost ders = certs@.map_values(|c: Vec<u8>| c@);
    let mut i: usize = 0;
    while i < certs.len()
        invariant
            i <= certs@.len(),
            ders == certs@.map_values(|c: Vec<u8>| c@),
            first_expiring(ders, 0) == first_expiring(ders, i as int),
        decreases certs@.len() - i,
    {
        assert(ders[i as int] == certs@[i as int]@);
        if let Some(ts) = certificate_not_after(certs[i].as_slice()) {
            if timestamp_in_range(ts) {
                proof {
                    let m = i as int;
                    lemma_first_expiring_is_first(ders, 0);
                    assert(first_expiring(ders, m) == m);
                    assert(forall|j: int| 0 <= j < m ==> !gives_expiry(#[trigger] ders[j]));
                    assert(0 <= m < ders.len() && gives_expiry(ders[m]) && x509_not_after(ders[m]) == Some(ts));
                }
                return Some(ts);
            }
        }
        i = i + 1;
    }
    None
}

} // verus!
