use std::io::Write;

use ttspotify::update::{binary_name, extract_binary, select_member, zip_outcome};

fn tar_gz(members: &[(&str, &[u8])]) -> Vec<u8> {
    let mut tar_buf = Vec::new();
    {
        let mut builder = tar::Builder::new(&mut tar_buf);
        for (path, data) in members {
            let mut header = tar::Header::new_gnu();
            header.set_path(path).unwrap();
            header.set_size(data.len() as u64);
            header.set_cksum();
            builder.append(&header, *data).unwrap();
        }
        builder.finish().unwrap();
    }
    let mut gz = Vec::new();
    {
        let mut enc = flate2::write::GzEncoder::new(&mut gz, flate2::Compression::default());
        enc.write_all(&tar_buf).unwrap();
        enc.finish().unwrap();
    }
    gz
}

fn zip_with(name: &str, data: &[u8]) -> Vec<u8> {
    let mut buf = Vec::new();
    {
        let w = std::io::Cursor::new(&mut buf);
        let mut zip = zip::ZipWriter::new(w);
        let opts: zip::write::FileOptions<'_, ()> = zip::write::FileOptions::default();
        zip.start_file(name, opts).unwrap();
        zip.write_all(data).unwrap();
        zip.finish().unwrap();
    }
    buf
}

#[test]
fn extract_from_tar_gz() {
    let gz = tar_gz(&[("tt-spotify-bot", b"BINARY")]);
    let out = extract_binary(&gz, false, "tt-spotify-bot").unwrap();
    assert_eq!(out, b"BINARY");
}

#[test]
fn extract_from_zip() {
    let buf = zip_with("tt-spotify-bot.exe", b"WINBIN");
    let out = extract_binary(&buf, true, "tt-spotify-bot.exe").unwrap();
    assert_eq!(out, b"WINBIN");
}

#[test]
fn extract_missing_binary_errors() {
    let buf = zip_with("something-else", b"x");
    assert!(extract_binary(&buf, true, "tt-spotify-bot.exe").is_err());
}

#[test]
fn a_zip_without_the_binary_names_it_in_the_error() {
    let buf = zip_with("something-else", b"x");
    let err = extract_binary(&buf, true, "tt-spotify-bot.exe").unwrap_err();
    assert!(err.starts_with("tt-spotify-bot.exe: "), "{err}");
}

#[test]
fn the_first_tar_member_with_the_name_is_taken_whatever_directory_it_is_in() {
    let gz = tar_gz(&[("README", b"text"), ("dist/tt-spotify-bot", b"ONE"), ("tt-spotify-bot", b"TWO")]);
    assert_eq!(extract_binary(&gz, false, "tt-spotify-bot").unwrap(), b"ONE");
}

#[test]
fn a_tar_without_the_binary_says_so() {
    let gz = tar_gz(&[("README", b"text")]);
    assert_eq!(
        extract_binary(&gz, false, "tt-spotify-bot").unwrap_err(),
        "tt-spotify-bot not found in archive"
    );
    assert!(extract_binary(b"not gzip", false, "tt-spotify-bot").is_err());
    assert!(extract_binary(b"not zip", true, "tt-spotify-bot.exe").is_err());
}

#[test]
fn picking_a_member_goes_by_name_then_by_failure() {
    let members = vec![
        (None, Ok(vec![1u8])),
        (Some("other".to_string()), Ok(vec![2u8])),
        (Some("bot".to_string()), Err("bad read".to_string())),
        (Some("bot".to_string()), Ok(vec![3u8])),
    ];
    assert_eq!(select_member(members, None, "bot"), Err("bad read".to_string()));
    assert_eq!(
        select_member(vec![(Some("other".to_string()), Ok(vec![2u8]))], Some("truncated".to_string()), "bot"),
        Err("truncated".to_string())
    );
    assert_eq!(select_member(vec![], None, "bot"), Err("bot not found in archive".to_string()));
}

#[test]
fn only_a_failed_lookup_carries_the_name() {
    assert_eq!(zip_outcome(Ok(vec![7]), "b"), Ok(vec![7]));
    assert_eq!(zip_outcome(Err(("gone".to_string(), true)), "b"), Err("b: gone".to_string()));
    assert_eq!(zip_outcome(Err(("corrupt".to_string(), false)), "b"), Err("corrupt".to_string()));
    assert_eq!(binary_name(false), "tt-spotify-bot");
}

#[test]
fn a_deflated_zip_member_is_extracted() {
    let mut buf = Vec::new();
    {
        let w = std::io::Cursor::new(&mut buf);
        let mut zip = zip::ZipWriter::new(w);
        let opts: zip::write::FileOptions<'_, ()> = zip::write::FileOptions::default()
            .compression_method(zip::CompressionMethod::Deflated);
        zip.start_file("tt-spotify-bot.exe", opts).unwrap();
        zip.write_all(&[7u8; 4096]).unwrap();
        zip.finish().unwrap();
    }
    assert_eq!(extract_binary(&buf, true, "tt-spotify-bot.exe").unwrap(), vec![7u8; 4096]);
}
