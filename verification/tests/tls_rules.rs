use uptime_api::engine::handler::tls::certificate_expiry;

fn tlv(tag: u8, content: &[u8]) -> Vec<u8> {
    let mut out = vec![tag];
    let len = content.len();
    if len < 0x80 {
        out.push(len as u8);
    } else if len < 0x100 {
        out.extend_from_slice(&[0x81, len as u8]);
    } else {
        out.extend_from_slice(&[0x82, (len >> 8) as u8, len as u8]);
    }
    out.extend_from_slice(content);
    out
}

fn seq(parts: &[Vec<u8>]) -> Vec<u8> {
    tlv(0x30, &parts.concat())
}

/// A minimal self-issued certificate valid from 2020-01-01 to
/// 2049-12-31T23:59:59Z; its signature is not checked by parsing.
fn certificate() -> Vec<u8> {
    let sha256_rsa = seq(&[tlv(0x06, &[0x2A, 0x86, 0x48, 0x86, 0xF7, 0x0D, 0x01, 0x01, 0x0B]), vec![0x05, 0x00]]);
    let name = seq(&[tlv(0x31, &seq(&[tlv(0x06, &[0x55, 0x04, 0x03]), tlv(0x0C, b"t")]))]);
    let validity = seq(&[tlv(0x17, b"200101000000Z"), tlv(0x17, b"491231235959Z")]);
    let rsa = seq(&[tlv(0x06, &[0x2A, 0x86, 0x48, 0x86, 0xF7, 0x0D, 0x01, 0x01, 0x01]), vec![0x05, 0x00]]);
    let spki = seq(&[rsa, tlv(0x03, &[0x00, 0x00])]);
    let tbs = seq(&[
        tlv(0xA0, &tlv(0x02, &[0x02])),
        tlv(0x02, &[0x01]),
        sha256_rsa.clone(),
        name.clone(),
        validity,
        name,
        spki,
    ]);
    seq(&[tbs, sha256_rsa, tlv(0x03, &[0x00, 0x00])])
}

#[test]
fn expiry_comes_from_the_first_certificate_that_parses() {
    let chain = vec![b"not a certificate".to_vec(), certificate(), Vec::new()];
    assert_eq!(certificate_expiry(&chain), Some(2524607999));
}

#[test]
fn no_parseable_certificate_gives_no_expiry() {
    assert_eq!(certificate_expiry(&vec![vec![0x30, 0x00], b"garbage".to_vec()]), None);
    assert_eq!(certificate_expiry(&Vec::new()), None);
}

#[test]
fn chrono_range_is_the_one_the_contract_states() {
    let first: i64 = -8334601228800;
    let last: i64 = 8210266876799;
    assert!(chrono::DateTime::from_timestamp(first, 0).is_some());
    assert!(chrono::DateTime::from_timestamp(first - 1, 0).is_none());
    assert!(chrono::DateTime::from_timestamp(last, 0).is_some());
    assert!(chrono::DateTime::from_timestamp(last + 1, 0).is_none());
}
