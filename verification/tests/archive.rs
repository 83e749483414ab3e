use rtlauncher::archive::{plan_unpack, read_zip};
use rtlauncher::paths::EntryAction;
use rtlauncher::platform::Os;
use std::io::Write;

fn sample_archive() -> Vec<u8> {
    let mut writer = zip::ZipWriter::new(std::io::Cursor::new(Vec::new()));
    let options = zip::write::SimpleFileOptions::default();
    writer.start_file("liblwjgl.so", options).unwrap();
    writer.write_all(b"native code").unwrap();
    writer.add_directory("META-INF/", options).unwrap();
    writer.start_file("META-INF/MANIFEST.MF", options).unwrap();
    writer.write_all(b"Manifest-Version: 1.0\n").unwrap();
    writer.finish().unwrap().into_inner()
}

#[test]
fn read_zip_gives_entries_in_order() {
    let (entries, complete) = read_zip(sample_archive()).unwrap();
    assert!(complete);
    assert_eq!(entries.len(), 3);
    assert_eq!(entries[0].name, "liblwjgl.so");
    assert_eq!(entries[0].data, b"native code".to_vec());
    assert_eq!(entries[1].name, "META-INF/");
    assert!(entries[1].data.is_empty());
    assert_eq!(entries[2].name, "META-INF/MANIFEST.MF");
    assert_eq!(entries[2].data, b"Manifest-Version: 1.0\n".to_vec());
}

#[test]
fn read_zip_refuses_bytes_that_are_no_archive() {
    assert!(read_zip(b"not a zip archive".to_vec()).is_none());
    assert!(read_zip(Vec::new()).is_none());
}

#[test]
fn plan_unpack_on_linux() {
    let plan = plan_unpack(Os::Linux, "1.20.1", sample_archive()).unwrap();
    assert_eq!(plan.dir, ".minecraft/version/1.20.1/1.20.1-natives");
    assert!(plan.complete);
    assert_eq!(plan.steps.len(), 3);
    match &plan.steps[0].0 {
        EntryAction::WriteFile(p) => {
            assert_eq!(p, ".minecraft/version/1.20.1/1.20.1-natives/liblwjgl.so")
        }
        EntryAction::CreateDir(_) => panic!("a file entry was planned as a directory"),
    }
    assert_eq!(plan.steps[0].1, b"native code".to_vec());
    match &plan.steps[1].0 {
        EntryAction::CreateDir(p) => {
            assert_eq!(p, ".minecraft/version/1.20.1/1.20.1-natives/META-INF/")
        }
        EntryAction::WriteFile(_) => panic!("a directory entry was planned as a file"),
    }
    match &plan.steps[2].0 {
        EntryAction::WriteFile(p) => {
            assert_eq!(p, ".minecraft/version/1.20.1/1.20.1-natives/META-INF/MANIFEST.MF")
        }
        EntryAction::CreateDir(_) => panic!("a file entry was planned as a directory"),
    }
    assert_eq!(plan.steps[2].1, b"Manifest-Version: 1.0\n".to_vec());
}

#[test]
fn plan_unpack_on_windows() {
    let plan = plan_unpack(Os::Windows, "1.8.9", sample_archive()).unwrap();
    assert_eq!(plan.dir, ".minecraft\\version\\1.8.9\\1.8.9-natives");
    match &plan.steps[0].0 {
        EntryAction::WriteFile(p) => {
            assert_eq!(p, ".minecraft\\version\\1.8.9\\1.8.9-natives\\liblwjgl.so")
        }
        EntryAction::CreateDir(_) => panic!("a file entry was planned as a directory"),
    }
}

#[test]
fn plan_unpack_refuses_a_broken_archive() {
    assert!(plan_unpack(Os::Linux, "1.20.1", b"PK garbage".to_vec()).is_none());
}
