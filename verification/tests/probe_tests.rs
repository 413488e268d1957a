use port_scanner::checksum::internet_checksum;
use port_scanner::config::{ScanConfig, ScanTechnique};
use port_scanner::probe::{build_probe, reregister_destination_port, verify_probe_checksum};

fn config(technique: ScanTechnique) -> ScanConfig {
    ScanConfig {
        src_addr: [192, 168, 0, 2],
        dst_addr: [192, 168, 0, 10],
        src_port: 54321,
        max_port: 5,
        technique,
    }
}

#[test]
fn template_layout_and_flags() {
    let cases = [
        (ScanTechnique::Syn, 0x02u8),
        (ScanTechnique::Fin, 0x01u8),
        (ScanTechnique::Xmas, 0x29u8),
        (ScanTechnique::Null, 0x00u8),
    ];
    for (technique, flags) in cases {
        let cfg = config(technique);
        let probe = build_probe(&cfg);
        assert_eq!(probe.len(), 20);
        // source port 54321 = 0xd431, big-endian
        assert_eq!(probe[0], 0xd4);
        assert_eq!(probe[1], 0x31);
        // placeholder destination port zero
        assert_eq!(probe[2], 0);
        assert_eq!(probe[3], 0);
        // data offset 5 words, technique flags, nothing else set
        assert_eq!(probe[12], 0x50);
        assert_eq!(probe[13], flags);
        for i in [4, 5, 6, 7, 8, 9, 10, 11, 14, 15, 18, 19] {
            assert_eq!(probe[i], 0);
        }
        assert_eq!(technique.flags(), flags);
    }
}

#[test]
fn template_checksums() {
    let cases = [
        (ScanTechnique::Syn, [0x5a, 0x54]),
        (ScanTechnique::Fin, [0x5a, 0x55]),
        (ScanTechnique::Xmas, [0x5a, 0x2d]),
        (ScanTechnique::Null, [0x5a, 0x56]),
    ];
    for (technique, ck) in cases {
        let cfg = config(technique);
        let probe = build_probe(&cfg);
        assert_eq!(probe[16], ck[0]);
        assert_eq!(probe[17], ck[1]);
        assert!(verify_probe_checksum(&cfg, &probe));
    }
}

#[test]
fn mutated_probe_bytes() {
    let cfg = config(ScanTechnique::Syn);
    let mut probe = build_probe(&cfg);
    reregister_destination_port(&mut probe, 80, &cfg);
    let expected: Vec<u8> = vec![
        212, 49, 0, 80, 0, 0, 0, 0, 0, 0, 0, 0, 80, 2, 0, 0, 90, 4, 0, 0,
    ];
    assert_eq!(probe, expected);
    reregister_destination_port(&mut probe, 443, &cfg);
    assert_eq!(probe[2], 0x01);
    assert_eq!(probe[3], 0xbb);
    assert_eq!(probe[16], 0x58);
    assert_eq!(probe[17], 0x99);
}

#[test]
fn mutation_is_idempotent() {
    let cfg = config(ScanTechnique::Xmas);
    let mut once = build_probe(&cfg);
    reregister_destination_port(&mut once, 3, &cfg);
    let mut twice = once.clone();
    reregister_destination_port(&mut twice, 3, &cfg);
    assert_eq!(once, twice);
}

#[test]
fn recomputed_checksum_matches_written_value() {
    let cfg = ScanConfig {
        src_addr: [10, 0, 0, 1],
        dst_addr: [10, 0, 0, 2],
        src_port: 4000,
        max_port: 1,
        technique: ScanTechnique::Null,
    };
    let mut probe = build_probe(&cfg);
    reregister_destination_port(&mut probe, 1, &cfg);
    // independent recomputation over the pseudo-header and the header
    // with its checksum field zeroed
    let mut input: Vec<u8> = Vec::new();
    input.extend_from_slice(&cfg.src_addr);
    input.extend_from_slice(&cfg.dst_addr);
    input.extend_from_slice(&[0, 6, 0, 20]);
    input.extend_from_slice(&probe);
    input[28] = 0;
    input[29] = 0;
    let ck = internet_checksum(&input);
    assert_eq!(ck, 0x8c41);
    assert_eq!(probe[16], (ck >> 8) as u8);
    assert_eq!(probe[17], (ck & 0xff) as u8);
    assert!(verify_probe_checksum(&cfg, &probe));
}

#[test]
fn corrupting_any_byte_fails_verification() {
    let cfg = config(ScanTechnique::Syn);
    let mut probe = build_probe(&cfg);
    reregister_destination_port(&mut probe, 80, &cfg);
    for i in 0..20 {
        for delta in [1u8, 0x80, 0xff] {
            let mut bad = probe.clone();
            bad[i] = bad[i].wrapping_add(delta);
            assert!(!verify_probe_checksum(&cfg, &bad));
        }
    }
}

#[test]
fn token_selects_technique() {
    assert_eq!(ScanTechnique::from_token("sS"), Some(ScanTechnique::Syn));
    assert_eq!(ScanTechnique::from_token("sF"), Some(ScanTechnique::Fin));
    assert_eq!(ScanTechnique::from_token("sX"), Some(ScanTechnique::Xmas));
    assert_eq!(ScanTechnique::from_token("sN"), Some(ScanTechnique::Null));
    assert_eq!(ScanTechnique::from_token("sT"), None);
    assert_eq!(ScanTechnique::from_token("s"), None);
    assert_eq!(ScanTechnique::from_token(""), None);
    assert_eq!(ScanTechnique::from_token("sSS"), None);
    assert_eq!(ScanTechnique::from_token("Ss"), None);
}
