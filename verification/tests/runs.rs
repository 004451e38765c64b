use rsdkv6_extract::dictionary::NameDictionary;
use rsdkv6_extract::hasher::hash_text;
use rsdkv6_extract::report::{
    closing_lines, display_name, error_line, guess_line, pack_header, row_line, unused_line,
};
use rsdkv6_extract::router::{payload_len, payload_start, PackRouter};
use rsdkv6_extract::run::{name_for, Resolved, Run};
use rsdkv6_extract::signature::Signature;

fn lines(v: &[&str]) -> Vec<String> {
    v.iter().map(|s| s.to_string()).collect()
}

#[test]
fn unmatched_wave_payload_goes_under_missing() {
    let mut dict = NameDictionary::new();
    let packs = NameDictionary::new();
    let mut router = PackRouter::starting_at(0);
    let mut run = Run::new();
    let hash = "0123456789abcdef0123456789abcdef";
    let mut file = vec![0u8; 0x30];
    file.extend_from_slice(b"RIFF\x08\x00\x00\x00WAVEfmt ");

    assert_eq!(run.enter_pack(&mut router, &packs, 1, "pack one"), Some("Data001.rsdk".to_string()));
    let resolved = run.begin_row(&mut dict, hash);
    assert!(!resolved.hit);
    assert_eq!(resolved.name, format!("MISSING/{}", hash));
    let start = payload_start(0).unwrap() as usize;
    let len = payload_len(16).unwrap();
    assert_eq!(start + len, file.len());
    let payload = &file[start..start + len];
    let name = run.finish_row(hash, &resolved, 1, payload);
    assert_eq!(name, format!("MISSING/{}@1.wav", hash));
    assert!(run.record_write(false));
    assert_eq!(run.hits, 0);
    assert_eq!(run.misses, 1);
    assert_eq!(run.rows, 1);
    assert_eq!(run.new_files, 1);
    assert_eq!(
        run.log,
        vec![
            "------------ PACK 001 - pack one ------------".to_string(),
            format!("{} - MISSING/{}@1.wav", hash, hash),
        ]
    );
    assert!(run.guessed.is_empty());
}

#[test]
fn matched_row_is_written_under_its_dictionary_name() {
    let mut dict = NameDictionary::load(&lines(&["Sounds/Jump.wav", "Sounds/Land.wav"]), true);
    let mut run = Run::new();
    let hash = format!("{:x}", md5::compute("sounds/jump.wav"));
    let resolved = run.begin_row(&mut dict, &hash);
    assert!(resolved.hit);
    assert_eq!(resolved.name, "Sounds/Jump.wav");
    let name = run.finish_row(&hash, &resolved, 4, b"RIFF....WAVEfmt ");
    assert_eq!(name, "Sounds/Jump.wav");
    assert!(run.record_write(false));
    assert_eq!(run.hits, 1);
    assert_eq!(run.misses, 0);
    assert_eq!(run.new_files, 1);
    assert_eq!(dict.unused(), vec![(hash_text("sounds/land.wav"), "Sounds/Land.wav".to_string())]);
    assert_eq!(run.log, vec![format!("{} - Sounds/Jump.wav", hash)]);
}

#[test]
fn truncated_payload_is_logged_and_the_run_goes_on() {
    let mut dict = NameDictionary::load(&lines(&["a.bin"]), true);
    let mut run = Run::new();
    let resolved = run.begin_row(&mut dict, "feed");
    run.read_failed("feed", &resolved.name, "failed to fill whole buffer");
    assert_eq!(run.new_files, 0);
    assert_eq!(run.rows, 1);
    assert_eq!(run.log, vec!["feed - MISSING/feed - ERROR: failed to fill whole buffer".to_string()]);

    let key = hash_text("a.bin");
    let next = run.begin_row(&mut dict, &key);
    assert!(next.hit);
    let name = run.finish_row(&key, &next, 1, b"GPU\x00data");
    assert_eq!(name, "a.bin");
    assert!(run.record_write(false));
    assert_eq!(run.rows, 2);
    assert_eq!(run.hits + run.misses, run.rows);
    assert_eq!(run.new_files, 1);
    assert_eq!(run.log.len(), 2);
}

#[test]
fn second_pass_writes_nothing_new() {
    let mut dict = NameDictionary::load(&lines(&["a.bin"]), true);
    let mut run = Run::new();
    let key = hash_text("a.bin");
    let resolved = run.begin_row(&mut dict, &key);
    let name = run.finish_row(&key, &resolved, 1, b"data");
    assert_eq!(name, "a.bin");
    assert!(!run.record_write(true));
    assert_eq!(run.new_files, 0);
    assert_eq!(run.hits, 1);
}

#[test]
fn hits_and_misses_add_up_to_the_rows() {
    let mut dict = NameDictionary::load(&lines(&["a", "b", "c"]), true);
    let mut run = Run::new();
    let rows = vec![hash_text("a"), "x".to_string(), hash_text("c"), "y".to_string(), "z".to_string()];
    for hash in &rows {
        run.begin_row(&mut dict, hash);
    }
    assert_eq!(run.rows, 5);
    assert_eq!(run.hits, 2);
    assert_eq!(run.misses, 3);
    assert!(run.hits as usize <= dict.len());
    assert_eq!(dict.unused(), vec![(hash_text("b"), "b".to_string())]);
}

#[test]
fn placeholder_gets_pack_id_and_inferred_suffix() {
    let mut dict = NameDictionary::new();
    let mut run = Run::new();
    let r = run.begin_row(&mut dict, "h1");
    assert_eq!(run.finish_row("h1", &r, 12, b"{\"key\": 1}"), "MISSING/h1@12.cfg");
    let r = run.begin_row(&mut dict, "h2");
    assert_eq!(run.finish_row("h2", &r, 3, b"nothing known"), "MISSING/h2@3");
    let r = run.begin_row(&mut dict, "h3");
    assert_eq!(run.finish_row("h3", &r, 3, b"MDL\x02...."), "MISSING/h3@3.bin.mdl");
}

#[test]
fn dictionary_name_gets_no_suffix() {
    let mut dict = NameDictionary::load(&lines(&["MISSING_textures/a.pvr"]), true);
    let mut run = Run::new();
    let key = hash_text("missing_textures/a.pvr");
    let r = run.begin_row(&mut dict, &key);
    assert_eq!(run.finish_row(&key, &r, 2, b"RIFFxxxx"), "MISSING_textures/a.pvr");
}

#[test]
fn gzip_name_is_noted_for_a_miss_only() {
    let mut payload = vec![0x1F, 0x8B, 0x08, 0x08, 0, 0, 0, 0, 0, 0];
    payload.extend_from_slice(b"inner.pvr\x00");
    payload.extend_from_slice(&[0x55; 80]);

    let mut dict = NameDictionary::load(&lines(&["known.pvr.gz"]), true);
    let mut run = Run::new();
    let r = run.begin_row(&mut dict, "cafe");
    assert_eq!(run.finish_row("cafe", &r, 7, &payload), "MISSING/cafe@7.pvr.gz");
    assert_eq!(run.guessed, vec![("cafe".to_string(), "inner.pvr".to_string())]);

    let key = hash_text("known.pvr.gz");
    let r = run.begin_row(&mut dict, &key);
    assert_eq!(run.finish_row(&key, &r, 7, &payload), "known.pvr.gz");
    assert_eq!(run.guessed.len(), 1);
}

#[test]
fn pack_header_uses_the_display_name() {
    let packs = NameDictionary::load(&lines(&["Main Pack"]), false);
    let stored = hash_text("Main Pack");
    let mut router = PackRouter::starting_at(0);
    let mut run = Run::new();
    assert_eq!(run.enter_pack(&mut router, &packs, 2, &stored), Some("Data002.rsdk".to_string()));
    assert_eq!(run.enter_pack(&mut router, &packs, 2, &stored), None);
    assert_eq!(run.enter_pack(&mut router, &packs, 3, "unknown"), Some("Data003.rsdk".to_string()));
    assert_eq!(
        run.log,
        vec![
            "------------ PACK 002 - Main Pack ------------".to_string(),
            "------------ PACK 003 - unknown ------------".to_string(),
        ]
    );
    assert_eq!(display_name(&packs, &stored), "Main Pack");
    assert_eq!(display_name(&packs, "other"), "other");
}

#[test]
fn report_lines() {
    assert_eq!(row_line("h", "n"), "h - n");
    assert_eq!(error_line("h", "n", "e"), "h - n - ERROR: e");
    assert_eq!(unused_line("h", "n"), "h - n - UNUSED");
    assert_eq!(guess_line("h", "n"), "h --> n");
    assert_eq!(pack_header(7, "seven"), "------------ PACK 007 - seven ------------");
}

#[test]
fn closing_section() {
    let unused = vec![("h1".to_string(), "a".to_string()), ("h2".to_string(), "b".to_string())];
    let guessed = vec![("h3".to_string(), "c.pvr".to_string())];
    assert_eq!(
        closing_lines(&unused, &guessed),
        vec!["", "h1 - a - UNUSED", "h2 - b - UNUSED", "", "Guessed names:", "h3 --> c.pvr", ""]
    );
    assert_eq!(closing_lines(&Vec::new(), &Vec::new()), vec!["", "", "Guessed names:", ""]);
}

#[test]
fn output_name_from_its_parts() {
    let miss = Resolved { name: "MISSING/ab12".to_string(), hit: false };
    assert_eq!(name_for(&miss, 1, Some(Signature::Wave), false), "MISSING/ab12@1.wav");
    assert_eq!(name_for(&miss, 1, Some(Signature::Wave), true), "MISSING/ab12@1.wav");
    assert_eq!(name_for(&miss, 15, None, true), "MISSING/ab12@15.cfg");
    assert_eq!(name_for(&miss, 204, None, false), "MISSING/ab12@204");
    let hit = Resolved { name: "Sounds/Jump.wav".to_string(), hit: true };
    assert_eq!(name_for(&hit, 1, Some(Signature::Ogg), true), "Sounds/Jump.wav");
}

#[test]
fn row_after_a_failed_read_is_handled_as_if_alone() {
    let names = lines(&["a.bin", "b.bin"]);
    let key = hash_text("b.bin");

    let mut dict = NameDictionary::load(&names, true);
    let mut run = Run::new();
    let failed = run.begin_row(&mut dict, "feed");
    run.read_failed("feed", &failed.name, "failed to fill whole buffer");
    let next = run.begin_row(&mut dict, &key);
    let name = run.finish_row(&key, &next, 1, b"PAL\x00....");
    assert!(run.record_write(false));

    let mut alone_dict = NameDictionary::load(&names, true);
    let mut alone = Run::new();
    let only = alone.begin_row(&mut alone_dict, &key);
    let alone_name = alone.finish_row(&key, &only, 1, b"PAL\x00....");
    assert!(alone.record_write(false));

    assert_eq!(name, alone_name);
    assert_eq!(run.new_files, alone.new_files);
    assert_eq!(run.hits, alone.hits);
    assert_eq!(run.log.last(), alone.log.last());
    assert_eq!(dict.unused(), alone_dict.unused());
    assert_eq!(run.guessed, alone.guessed);
}
