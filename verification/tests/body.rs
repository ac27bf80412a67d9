use std::io::Read;

use yukicoder_tools::body::{contains, multipart, pick_boundary, Body, BodyError, Part};

#[test]
fn small_bodies_are_not_compressed() {
    let body = Body::new(b"short".to_vec()).unwrap();
    assert!(!body.gzipped);
    assert_eq!(body.bytes, b"short");
}

#[test]
fn large_bodies_are_compressed_and_round_trip() {
    let original = "1 2 3\n".repeat(1000).into_bytes();
    let body = Body::new(original.clone()).unwrap();

    assert!(body.gzipped);
    assert!(body.bytes.len() < original.len());

    let mut decoded = Vec::new();
    flate2::read::GzDecoder::new(&body.bytes[..])
        .read_to_end(&mut decoded)
        .unwrap();
    assert_eq!(decoded, original);
}

#[test]
fn incompressible_bodies_stay_raw() {
    let original: Vec<u8> = (0..4096u32)
        .map(|i| (i.wrapping_mul(2654435761) >> 13) as u8)
        .collect();
    let body = Body::new(original.clone()).unwrap();
    if body.gzipped {
        assert!(body.bytes.len() < original.len());
    } else {
        assert_eq!(body.bytes, original);
    }
}

#[test]
fn bodies_just_under_the_threshold_are_sent_raw() {
    let original = vec![b'a'; 1023];
    let body = Body::new(original.clone()).unwrap();
    assert!(!body.gzipped);
    assert_eq!(body.bytes, original);
}

#[test]
fn multipart_body_has_the_expected_shape() {
    let parts = vec![
        Part::file("newfiles", "1.txt", b"1\n".to_vec()),
        Part::file("newfiles", "2.txt", b"2\n".to_vec()),
    ];
    let (boundary, body) = multipart(&parts).unwrap();
    let text = String::from_utf8(body).unwrap();

    assert_eq!(
        text,
        format!(
            "--{boundary}\r\n\
             Content-Disposition: form-data; name=\"newfiles\"; filename=\"1.txt\"\r\n\
             Content-Type: text/plain\r\n\r\n\
             1\n\r\n\
             --{boundary}\r\n\
             Content-Disposition: form-data; name=\"newfiles\"; filename=\"2.txt\"\r\n\
             Content-Type: text/plain\r\n\r\n\
             2\n\r\n\
             --{boundary}--\r\n"
        )
    );
}

#[test]
fn boundary_does_not_appear_in_the_content() {
    let parts = vec![Part::file("newfiles", "1.txt", b"a\n".to_vec())];
    let (boundary, _) = multipart(&parts).unwrap();
    assert!(!contains(b"a\n", boundary.as_bytes()));
}

#[test]
fn text_parts_have_no_filename() {
    let parts = vec![Part::text("lang", "cpp23"), Part::text("source", "int main() {}")];
    let (boundary, body) = multipart(&parts).unwrap();
    let text = String::from_utf8(body).unwrap();

    assert_eq!(
        text,
        format!(
            "--{boundary}\r\n\
             Content-Disposition: form-data; name=\"lang\"\r\n\r\n\
             cpp23\r\n\
             --{boundary}\r\n\
             Content-Disposition: form-data; name=\"source\"\r\n\r\n\
             int main() {{}}\r\n\
             --{boundary}--\r\n"
        )
    );
}

#[test]
fn rejects_names_that_break_the_header() {
    for ok in ["case-01.txt", "1_sample.txt"] {
        let parts = vec![Part::file("newfiles", ok, b"a".to_vec())];
        assert!(multipart(&parts).is_ok(), "{ok}");
    }
    for bad in ["a\"b.txt", "a\\b.txt", "a\r\nb.txt", "テスト.txt", ""] {
        let parts = vec![Part::file("newfiles", bad, b"a".to_vec())];
        assert!(multipart(&parts).is_err(), "{bad:?}");
    }
}

#[test]
fn the_first_bad_file_name_is_reported() {
    let parts = vec![
        Part::file("newfiles", "ok.txt", b"a".to_vec()),
        Part::file("newfiles", "a\"b.txt", b"b".to_vec()),
        Part::file("newfiles", "c\\d.txt", b"c".to_vec()),
    ];
    assert_eq!(
        multipart(&parts).unwrap_err(),
        BodyError::InvalidFileName("a\"b.txt".to_string())
    );
}

#[test]
fn the_boundary_avoids_every_part() {
    let parts = vec![
        Part::text("lang", "cpp23"),
        Part::file("newfiles", "1.txt", b"----yukicoder".to_vec()),
    ];
    let (boundary, body) = multipart(&parts).unwrap();
    assert!(!boundary.is_empty());
    for p in &parts {
        assert!(!contains(p.body(), boundary.as_bytes()));
    }
    assert!(body.ends_with(format!("--{boundary}--\r\n").as_bytes()));
}

fn candidates(seed: u128, count: u128) -> Vec<u8> {
    let mut content = Vec::new();
    for k in 0..count {
        content.extend_from_slice(format!("yukicodertools{:032x}\n", seed.wrapping_add(k)).as_bytes());
    }
    content
}

#[test]
fn the_first_free_candidate_is_the_boundary() {
    let seed: u128 = 0x1234;
    let parts = vec![Part::file("newfiles", "1.txt", b"a\n".to_vec())];
    assert_eq!(pick_boundary(&parts, seed), format!("yukicodertools{seed:032x}"));

    let parts = vec![Part::file("newfiles", "1.txt", candidates(seed, 1))];
    assert_eq!(pick_boundary(&parts, seed), format!("yukicodertools{:032x}", seed + 1));
}

#[test]
fn the_candidate_count_wraps_around() {
    let seed = u128::MAX;
    let parts = vec![Part::file("newfiles", "1.txt", candidates(seed, 1))];
    assert_eq!(pick_boundary(&parts, seed), format!("yukicodertools{:032x}", 0u128));
}

#[test]
fn the_fallback_is_used_when_every_candidate_occurs() {
    let seed: u128 = 7;
    let parts = vec![Part::file("newfiles", "1.txt", candidates(seed, 64))];
    assert_eq!(pick_boundary(&parts, seed), format!("yukicodertools{seed:032x}zzzz"));
}

#[test]
fn the_fallback_grows_until_it_is_free() {
    let seed: u128 = 7;
    let mut content = candidates(seed, 64);
    content.extend_from_slice(format!("yukicodertools{seed:032x}zzzzz").as_bytes());
    let parts = vec![
        Part::text("lang", "cpp23"),
        Part::file("newfiles", "1.txt", content.clone()),
    ];
    let boundary = pick_boundary(&parts, seed);
    assert_eq!(boundary, format!("yukicodertools{seed:032x}zzzzzz"));
    assert!(!contains(&content, boundary.as_bytes()));
}
