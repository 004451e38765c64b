use rsdkv6_extract::signature::{
    classify, digit_runs_within_limit, DIGIT_RUN_LIMIT, embedded_name_bytes, guessed_name, infer_extension, is_structured_text, suffix_for,
    Signature,
};

#[test]
fn every_signature_of_the_table() {
    let table: Vec<(&[u8], Signature, &str)> = vec![
        (b"MThd", Signature::Midi, ".mid"),
        (b"\x1F\x8B\x08\x00", Signature::Gzip, ".pvr.gz"),
        (b"\x1F\x8B\x08\x08", Signature::Gzip, ".pvr.gz"),
        (b"GPU\x00", Signature::Gpu, ".bin.gpu"),
        (b"PAL\x00", Signature::Palette, ".bin.pal"),
        (b"MDL\x00", Signature::Model, ".bin.mdl"),
        (b"MDL\x01", Signature::Model, ".bin.mdl"),
        (b"MDL\x02", Signature::Model, ".bin.mdl"),
        (b"LYR\x00", Signature::Layer, ".bin.lyr"),
        (b"LYR\x01", Signature::Layer, ".bin.lyr"),
        (b"LYR\x02", Signature::Layer, ".bin.lyr"),
        (b"RIFF", Signature::Wave, ".wav"),
        (b"OggS", Signature::Ogg, ".ogg"),
        (b"SQLi", Signature::Database, ".db"),
        (b"ANI\x00", Signature::Animation, ".bin.ani"),
        (b"SPR\x01", Signature::Sprite, ".bin.spr"),
        (b"VFX\x00", Signature::Effect, ".bin.vfx"),
        (b"DKIF", Signature::Ivf, ".ivf"),
        (b"COM\x00", Signature::Compound, ".bin.com"),
    ];
    for (head, kind, ext) in table {
        let mut payload = head.to_vec();
        payload.extend_from_slice(b"trailing bytes");
        assert_eq!(classify(&payload), Some(kind));
        assert_eq!(classify(head), Some(kind));
        assert_eq!(kind.extension(), ext);
        assert_eq!(infer_extension(&payload), ext);
    }
}

#[test]
fn near_misses_have_no_signature() {
    assert_eq!(classify(b"MDL\x03"), None);
    assert_eq!(classify(b"SPR\x00"), None);
    assert_eq!(classify(b"RIFX"), None);
    assert_eq!(classify(b"mthd"), None);
    assert_eq!(classify(b"\x1F\x8C\x08\x08"), None);
}

#[test]
fn short_payload_has_no_signature() {
    assert_eq!(classify(b""), None);
    assert_eq!(classify(b"RIF"), None);
    assert_eq!(classify(b"\x1F\x8B"), None);
}

#[test]
fn same_prefix_gives_same_signature() {
    let a = b"OggS and then something".to_vec();
    let b = b"OggS\x00\x01\x02".to_vec();
    assert_eq!(classify(&a), classify(&b));
    assert_eq!(classify(&a), classify(&a));
}

#[test]
fn structured_text_gets_cfg() {
    assert_eq!(infer_extension(b"{\"a\": [1, 2, 3]}"), ".cfg");
    assert_eq!(infer_extension(b"[true, null]"), ".cfg");
    assert!(is_structured_text(b"{\"k\": \"v\"}"));
}

#[test]
fn unknown_payload_gets_no_suffix() {
    assert_eq!(infer_extension(b"plain words, no structure"), "");
    assert_eq!(infer_extension(b"\xff\xfe\x00\x01"), "");
    assert_eq!(infer_extension(b""), "");
    assert!(!is_structured_text(b"\xff\xfe{}"));
    assert!(!is_structured_text(b""));
}

#[test]
fn suffix_from_signature_and_parse() {
    assert_eq!(suffix_for(Some(Signature::Wave), false), ".wav");
    assert_eq!(suffix_for(Some(Signature::Wave), true), ".wav");
    assert_eq!(suffix_for(None, true), ".cfg");
    assert_eq!(suffix_for(None, false), "");
}

fn gzip_with_name(name: &[u8], flag: u8, total: usize) -> Vec<u8> {
    let mut p = vec![0x1F, 0x8B, 0x08, flag, 1, 2, 3, 4, 0x02, 0x03];
    p.extend_from_slice(name);
    while p.len() < total {
        p.push(0xAA);
    }
    p
}

#[test]
fn gzip_header_name_is_found() {
    let p = gzip_with_name(b"texture.pvr\x00", 0x08, 100);
    assert_eq!(embedded_name_bytes(&p), Some(b"texture.pvr".to_vec()));
    assert_eq!(guessed_name(&p), Some("texture.pvr".to_string()));
}

#[test]
fn gzip_without_name_flag_has_no_name() {
    let p = gzip_with_name(b"texture.pvr\x00", 0x00, 100);
    assert_eq!(embedded_name_bytes(&p), None);
    assert_eq!(guessed_name(&p), None);
    let q = gzip_with_name(b"texture.pvr\x00", 0x18, 100);
    assert_eq!(guessed_name(&q), None);
}

#[test]
fn name_without_terminator_in_the_window_is_dropped() {
    let long = [b'a'; 80];
    let p = gzip_with_name(&long, 0x08, 100);
    assert_eq!(guessed_name(&p), None);
    let mut q = vec![0x1F, 0x8B, 0x08, 0x08, 0, 0, 0, 0, 0, 0];
    q.extend_from_slice(&[b'b'; 54]);
    q.push(0);
    assert_eq!(guessed_name(&q), None);
    let mut r = vec![0x1F, 0x8B, 0x08, 0x08, 0, 0, 0, 0, 0, 0];
    r.extend_from_slice(&[b'b'; 53]);
    r.push(0);
    assert_eq!(guessed_name(&r), Some("b".repeat(53)));
}

#[test]
fn short_gzip_payload_is_searched_to_its_end() {
    let p = gzip_with_name(b"a.pvr\x00", 0x08, 16);
    assert_eq!(guessed_name(&p), Some("a.pvr".to_string()));
    let q = gzip_with_name(b"a.pvr", 0x08, 15);
    assert_eq!(guessed_name(&q), None);
    assert_eq!(guessed_name(b"\x1F\x8B\x08\x08"), None);
}

#[test]
fn name_that_is_no_text_is_dropped() {
    let p = gzip_with_name(b"\xff\xfe\x00", 0x08, 100);
    assert_eq!(embedded_name_bytes(&p), Some(vec![0xff, 0xfe]));
    assert_eq!(guessed_name(&p), None);
}

#[test]
fn empty_embedded_name() {
    let p = gzip_with_name(b"\x00", 0x08, 100);
    assert_eq!(guessed_name(&p), Some(String::new()));
}

#[test]
fn digit_runs_up_to_the_limit_are_accepted() {
    assert_eq!(DIGIT_RUN_LIMIT, 32767);
    assert!(digit_runs_within_limit(b""));
    assert!(digit_runs_within_limit(b"no digits at all"));
    assert!(digit_runs_within_limit(&vec![b'7'; 32767]));
    assert!(!digit_runs_within_limit(&vec![b'7'; 32768]));
    let mut split = vec![b'1'; 32767];
    split.push(b',');
    split.extend_from_slice(&vec![b'2'; 32767]);
    assert!(digit_runs_within_limit(&split));
    let mut late = b"[1, 2, ".to_vec();
    late.extend_from_slice(&vec![b'0'; 32768]);
    late.push(b']');
    assert!(!digit_runs_within_limit(&late));
}

#[test]
fn long_fraction_within_the_limit_is_structured_text() {
    let mut text = b"0.".to_vec();
    text.extend_from_slice(&vec![b'0'; 32767]);
    assert!(is_structured_text(&text));
    assert_eq!(infer_extension(&text), ".cfg");
}

#[test]
fn fraction_beyond_the_limit_is_no_structured_text() {
    let mut text = b"0.".to_vec();
    text.extend_from_slice(&vec![b'0'; 40000]);
    assert!(!is_structured_text(&text));
    assert_eq!(infer_extension(&text), "");
    let mut wrapped = b"{\"k\": 0.".to_vec();
    wrapped.extend_from_slice(&vec![b'0'; 32769]);
    wrapped.push(b'}');
    assert!(!is_structured_text(&wrapped));
}
