use std::io::Write;

use hugo_build::acquire::{begin, step, Action, Event, Stage};
use hugo_build::archive::{extract_gzip_tar, file_name_of, plan_payload, plan_tar, Extraction};
use hugo_build::cache::{probe, DirEntry};
use hugo_build::error::AcquireError;
use hugo_build::odc::{parse_odc, parse_octal};
use hugo_build::platform::{resolve, tool_name_bytes, ContainerFormat, Platform};
use hugo_build::version::normalize;
use hugo_build::xar::{extract_xar_package, locate_payload, parse_decimal};
use hugo_build::HugoBuilder;

fn gzip(data: &[u8]) -> Vec<u8> {
    let mut e = flate2::write::GzEncoder::new(Vec::new(), flate2::Compression::default());
    e.write_all(data).unwrap();
    e.finish().unwrap()
}

fn zlib(data: &[u8]) -> Vec<u8> {
    let mut e = flate2::write::ZlibEncoder::new(Vec::new(), flate2::Compression::default());
    e.write_all(data).unwrap();
    e.finish().unwrap()
}

fn tar_of(members: &[(&str, &[u8])]) -> Vec<u8> {
    let mut b = tar::Builder::new(Vec::new());
    for (name, data) in members {
        let mut h = tar::Header::new_gnu();
        h.set_size(data.len() as u64);
        h.set_mode(0o644);
        h.set_cksum();
        b.append_data(&mut h, name, *data).unwrap();
    }
    b.into_inner().unwrap()
}

fn odc_record(name: &str, data: &[u8]) -> Vec<u8> {
    let mut out = format!(
        "070707{:06o}{:06o}{:06o}{:06o}{:06o}{:06o}{:06o}{:011o}{:06o}{:011o}",
        1, 2, 0o100755, 0, 0, 1, 0, 0, name.len() + 1, data.len()
    )
    .into_bytes();
    out.extend_from_slice(name.as_bytes());
    out.push(0);
    out.extend_from_slice(data);
    out
}

fn odc_stream(records: &[(&str, &[u8])]) -> Vec<u8> {
    let mut out = Vec::new();
    for (name, data) in records {
        out.extend(odc_record(name, data));
    }
    out.extend(odc_record("TRAILER!!!", b""));
    out
}

fn xar_package(member_name: &str, heap_member: &[u8]) -> Vec<u8> {
    let toc = format!(
        "<?xml version=\"1.0\" encoding=\"UTF-8\"?>\n<xar>\n <toc>\n  \
         <checksum style=\"sha1\"><offset>0</offset><size>20</size></checksum>\n  \
         <file id=\"1\">\n   <name>Distribution</name>\n   <data><offset>20</offset><length>3</length></data>\n  </file>\n  \
         <file id=\"2\">\n   <name>hugo.pkg</name>\n   <type>directory</type>\n   \
         <file id=\"3\">\n    <data>\n     <length>{}</length>\n     \
         <encoding style=\"application/x-gzip\"/>\n     <offset>23</offset>\n     \
         <size>99</size>\n    </data>\n    <name>{}</name>\n   </file>\n  </file>\n </toc>\n</xar>\n",
        heap_member.len(),
        member_name
    );
    let toc_z = zlib(toc.as_bytes());
    let mut out = Vec::new();
    out.extend_from_slice(b"xar!");
    out.extend_from_slice(&28u16.to_be_bytes());
    out.extend_from_slice(&1u16.to_be_bytes());
    out.extend_from_slice(&(toc_z.len() as u64).to_be_bytes());
    out.extend_from_slice(&(toc.len() as u64).to_be_bytes());
    out.extend_from_slice(&1u32.to_be_bytes());
    out.extend(toc_z);
    out.extend_from_slice(&[7u8; 20]);
    out.extend_from_slice(b"abc");
    out.extend_from_slice(heap_member);
    out
}

fn hugo() -> Vec<u8> {
    tool_name_bytes()
}

fn binary_of(e: &Extraction) -> (&[u8], &[u8], bool) {
    let f = &e.files[e.binary];
    (f.path.as_slice(), f.data.as_slice(), f.executable)
}

#[test]
fn normalize_strips_hotfix_suffix() {
    assert_eq!(normalize("0.154.5-hf1"), "0.154.5");
    assert_eq!(normalize("0.154.5"), "0.154.5");
    assert_eq!(normalize("1.2-a-b"), "1.2");
    assert_eq!(normalize("-x"), "");
    assert_eq!(normalize(""), "");
}

#[test]
fn resolve_linux_tarball() {
    let t = resolve("0.115.1", Platform::Linux);
    assert_eq!(t.version, "0.115.1");
    assert_eq!(
        t.asset_url,
        "https://github.com/gohugoio/hugo/releases/download/v0.115.1/hugo_extended_0.115.1_Linux-64bit.tar.gz"
    );
    assert_eq!(t.format, ContainerFormat::GzipTar);
    assert_eq!(t.binary_name, "hugo");
}

#[test]
fn resolve_macos_package_and_windows_name() {
    let t = resolve("0.116.1-hf2", Platform::MacOs);
    assert_eq!(t.version, "0.116.1");
    assert_eq!(
        t.asset_url,
        "https://github.com/gohugoio/hugo/releases/download/v0.116.1/hugo_extended_0.116.1_darwin-universal.pkg"
    );
    assert_eq!(t.format, ContainerFormat::XarPackage);
    let w = resolve("0.116.1", Platform::Windows);
    assert_eq!(w.binary_name, "hugo.exe");
    assert!(w.asset_url.ends_with("_windows-amd64.tar.gz"));
}

fn entry(name: &str, is_file: bool) -> DirEntry {
    DirEntry { name: name.to_string(), is_file }
}

#[test]
fn probe_matches_regular_file_by_exact_name() {
    let expected = "hugo".to_string();
    assert_eq!(probe(&vec![], &expected), None);
    let listing = vec![entry("hugo", false), entry("hugo-old", true), entry("README.md", true)];
    assert_eq!(probe(&listing, &expected), None);
    let listing = vec![entry("LICENSE", true), entry("hugo", true), entry("site", false)];
    assert_eq!(probe(&listing, &expected), Some(1));
}

#[test]
fn probe_last_match_wins() {
    let expected = "hugo".to_string();
    let listing = vec![entry("hugo", true), entry("x", true), entry("hugo", true)];
    assert_eq!(probe(&listing, &expected), Some(2));
}

#[test]
fn state_machine_transitions() {
    assert_eq!(begin(), (Stage::Start, Action::Probe));
    assert_eq!(step(Stage::Start, Event::Probed(true)), (Stage::Cached, Action::Finish));
    assert_eq!(step(Stage::Start, Event::Probed(false)), (Stage::Fetching, Action::Fetch));
    assert_eq!(
        step(Stage::Start, Event::ProbeFailed),
        (Stage::Failed(AcquireError::DirectoryRead), Action::Abort(AcquireError::DirectoryRead))
    );
    assert_eq!(step(Stage::Fetching, Event::Fetched), (Stage::Extracting, Action::Extract));
    assert_eq!(
        step(Stage::Fetching, Event::FetchFailed),
        (Stage::Failed(AcquireError::NetworkFetch), Action::Abort(AcquireError::NetworkFetch))
    );
    assert_eq!(step(Stage::Extracting, Event::Extracted), (Stage::Installed, Action::Finish));
    assert_eq!(
        step(Stage::Extracting, Event::ExtractFailed(AcquireError::BinaryNotFound)),
        (Stage::Failed(AcquireError::BinaryNotFound), Action::Abort(AcquireError::BinaryNotFound))
    );
    assert_eq!(step(Stage::Cached, Event::Fetched), (Stage::Cached, Action::Finish));
    assert_eq!(step(Stage::Fetching, Event::Extracted), (Stage::Fetching, Action::Fetch));
}

#[test]
fn octal_and_decimal_fields() {
    assert_eq!(parse_octal(b"000755", 0, 6), Some(0o755));
    assert_eq!(parse_octal(b"77777777777", 0, 11), Some(0o77777777777));
    assert_eq!(parse_octal(b"0008", 0, 4), None);
    assert_eq!(parse_decimal(b"x1234<", 1, 5), Some(1234));
    assert_eq!(parse_decimal(b"12a", 0, 3), None);
    assert_eq!(parse_decimal(b"", 0, 0), None);
}

#[test]
fn file_name_takes_last_component() {
    assert_eq!(file_name_of(b"./usr/local/bin/hugo"), b"hugo".to_vec());
    assert_eq!(file_name_of(b"hugo"), b"hugo".to_vec());
    assert_eq!(file_name_of(b"dir/"), b"".to_vec());
}

#[test]
fn gzip_tar_round_trip() {
    let data: &[u8] = b"\x7fELF binary bytes";
    let archive = gzip(&tar_of(&[("LICENSE", b"license text"), ("hugo", data)]));
    let e = extract_gzip_tar(&archive, &hugo()).unwrap();
    assert_eq!(e.files.len(), 2);
    assert_eq!(e.files[0].path, b"LICENSE".to_vec());
    assert_eq!(e.files[0].data, b"license text".to_vec());
    assert!(!e.files[0].executable);
    assert_eq!(binary_of(&e), (&b"hugo"[..], data, true));
}

#[test]
fn gzip_tar_errors() {
    assert_eq!(extract_gzip_tar(b"not gzip at all", &hugo()).err(), Some(AcquireError::ArchiveFormat));
    let archive = gzip(&tar_of(&[("README.md", b"readme")]));
    assert_eq!(extract_gzip_tar(&archive, &hugo()).err(), Some(AcquireError::BinaryNotFound));
}

#[test]
fn plan_tar_picks_last_candidate() {
    let members = vec![
        (b"hugo".to_vec(), b"one".to_vec()),
        (b"notes".to_vec(), b"two".to_vec()),
        (b"hugo.exe".to_vec(), b"three".to_vec()),
    ];
    let e = plan_tar(members, &hugo()).unwrap();
    assert_eq!(e.binary, 2);
    assert!(e.files[0].executable);
    assert!(!e.files[1].executable);
}

#[test]
fn odc_records_are_sliced_exactly() {
    let stream = odc_stream(&[("./a", b"AAAA"), ("./usr/local/bin/hugo", b"BIN"), ("./b", b"BB")]);
    let recs = parse_odc(&stream).unwrap();
    assert_eq!(recs.len(), 3);
    assert_eq!(recs[1].name, b"./usr/local/bin/hugo".to_vec());
    assert_eq!(&stream[recs[1].data_start..recs[1].data_start + recs[1].size], b"BIN");
    assert!(parse_odc(b"070707garbage").is_none());
    let mut truncated = odc_stream(&[("./a", b"AAAA")]);
    truncated.truncate(80);
    assert!(parse_odc(&truncated).is_none());
}

#[test]
fn payload_round_trip() {
    let data: &[u8] = b"exact binary bytes\x00\x01\x02";
    let stream = odc_stream(&[("./usr/local/bin/hugo", data)]);
    let e = plan_payload(&stream, &hugo()).unwrap();
    assert_eq!(e.files.len(), 1);
    assert_eq!(binary_of(&e), (&b"hugo"[..], data, true));
}

#[test]
fn payload_zero_length_record_gives_no_file() {
    let stream = odc_stream(&[("./usr", b""), ("./usr/local/bin/hugo", b"XYZ"), ("./usr/share/doc", b"doc")]);
    let e = plan_payload(&stream, &hugo()).unwrap();
    assert_eq!(e.files.len(), 2);
    assert_eq!(binary_of(&e), (&b"hugo"[..], &b"XYZ"[..], true));
    assert_eq!(e.files[1].path, b"doc".to_vec());
    assert_eq!(e.files[1].data, b"doc".to_vec());
}

#[test]
fn payload_without_binary_is_an_error() {
    let stream = odc_stream(&[("./usr/share/readme", b"text")]);
    assert_eq!(plan_payload(&stream, &hugo()).err(), Some(AcquireError::BinaryNotFound));
    assert_eq!(plan_payload(b"junk", &hugo()).err(), Some(AcquireError::ArchiveFormat));
}

#[test]
fn xar_package_round_trip() {
    let data: &[u8] = b"the mac binary";
    let payload = gzip(&odc_stream(&[("./usr", b""), ("./usr/local/bin/hugo", data)]));
    let pkg = xar_package("Payload", &payload);
    let e = extract_xar_package(&pkg, &hugo()).unwrap();
    assert_eq!(e.files.len(), 1);
    assert_eq!(binary_of(&e), (&b"hugo"[..], data, true));
}

#[test]
fn xar_package_errors() {
    let payload = gzip(&odc_stream(&[("./usr/share/readme", b"text")]));
    let pkg = xar_package("Payload", &payload);
    assert_eq!(extract_xar_package(&pkg, &hugo()).err(), Some(AcquireError::BinaryNotFound));
    let pkg = xar_package("Scripts", &payload);
    assert_eq!(extract_xar_package(&pkg, &hugo()).err(), Some(AcquireError::PayloadNotFound));
    assert_eq!(extract_xar_package(b"not a package", &hugo()).err(), Some(AcquireError::ArchiveFormat));
}

#[test]
fn locate_payload_reads_its_own_file_element() {
    let toc = b"<file id=\"1\"><data><offset>5</offset><length>6</length></data><name>Other</name></file>\
<file id=\"2\"><data><length>42</length><offset>7</offset></data><name>Payload</name></file>";
    assert_eq!(locate_payload(toc), Ok((7, 42)));
    assert_eq!(locate_payload(b"<file><name>Other</name></file>"), Err(AcquireError::PayloadNotFound));
    assert_eq!(
        locate_payload(b"<file><name>Payload</name><offset>x</offset></file>"),
        Err(AcquireError::ArchiveFormat)
    );
}

#[test]
fn end_to_end_acquisition_then_cache_hit() {
    let target = resolve("0.115.1", Platform::Linux);
    assert_eq!(target.format, ContainerFormat::GzipTar);
    let mut listing: Vec<DirEntry> = Vec::new();
    let mut fetches = 0;
    for _ in 0..2 {
        let (mut stage, mut action) = begin();
        loop {
            let event = match action {
                Action::Probe => Event::Probed(probe(&listing, &target.binary_name).is_some()),
                Action::Fetch => {
                    fetches += 1;
                    Event::Fetched
                }
                Action::Extract => {
                    let archive = gzip(&tar_of(&[("hugo", b"bin")]));
                    let e = extract_gzip_tar(&archive, &hugo()).unwrap();
                    for f in &e.files {
                        listing.push(entry(std::str::from_utf8(&f.path).unwrap(), true));
                    }
                    assert!(e.files[e.binary].executable);
                    Event::Extracted
                }
                Action::Finish | Action::Abort(_) => break,
            };
            let next = step(stage, event);
            stage = next.0;
            action = next.1;
        }
        assert!(stage == Stage::Installed || stage == Stage::Cached);
    }
    assert_eq!(fetches, 1);
    assert_eq!(probe(&listing, &target.binary_name), Some(0));
}

#[test]
fn builder_setters() {
    let b = HugoBuilder::new(std::path::PathBuf::from("/opt/hugo"));
    assert_eq!(b.input_path(), &None);
    let b = b.with_input(std::path::PathBuf::from("site")).with_output(std::path::PathBuf::from("out"));
    assert_eq!(b.binary(), &std::path::PathBuf::from("/opt/hugo"));
    assert_eq!(b.input_path(), &Some(std::path::PathBuf::from("site")));
    assert_eq!(b.output_path(), &Some(std::path::PathBuf::from("out")));
}
