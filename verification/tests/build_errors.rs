use epub::archive::Archive;
use epub::doc::EpubDoc;
use epub::errors::{DocError, ErrorKind};
use epub::strutil::derive_root_base;

fn expect_err(r: Result<EpubDoc, DocError>) -> DocError {
    match r {
        Ok(_) => panic!("expected construction to fail"),
        Err(e) => e,
    }
}

fn archive_with(container: &str, package: &str) -> Archive {
    let mut archive = Archive::new();
    archive.add_entry(
        "META-INF/container.xml".to_string(),
        container.as_bytes().to_vec(),
    );
    archive.add_entry("OEBPS/content.opf".to_string(), package.as_bytes().to_vec());
    archive
}

const GOOD_CONTAINER: &str = "<container><rootfiles>\
<rootfile full-path=\"OEBPS/content.opf\"/>\
</rootfiles></container>";

const GOOD_PACKAGE: &str = "<package>\
<metadata><title>x</title></metadata>\
<manifest><item id=\"a\" href=\"a.txt\" media-type=\"text/plain\"/></manifest>\
<spine><itemref idref=\"a\"/></spine>\
</package>";

#[test]
fn missing_container_entry() {
    let archive = Archive::new();
    assert_eq!(
        expect_err(EpubDoc::new(archive)),
        DocError { kind: ErrorKind::ResourcePathNotFound("META-INF/container.xml".to_string()) }
    );
}

#[test]
fn malformed_container() {
    let archive = archive_with("<container><unclosed>", GOOD_PACKAGE);
    assert_eq!(expect_err(EpubDoc::new(archive)), DocError { kind: ErrorKind::MalformedInput });
}

#[test]
fn container_without_rootfile() {
    let archive = archive_with("<container><rootfiles></rootfiles></container>", GOOD_PACKAGE);
    assert_eq!(
        expect_err(EpubDoc::new(archive)),
        DocError { kind: ErrorKind::ElementNotFound("rootfile".to_string()) }
    );
}

#[test]
fn rootfile_without_full_path() {
    let archive = archive_with(
        "<container><rootfiles><rootfile media-type=\"x\"/></rootfiles></container>",
        GOOD_PACKAGE,
    );
    assert_eq!(
        expect_err(EpubDoc::new(archive)),
        DocError { kind: ErrorKind::AttributeMissing("full-path".to_string()) }
    );
}

#[test]
fn missing_package_entry() {
    let container = "<container><rootfiles>\
<rootfile full-path=\"OEBPS/other.opf\"/>\
</rootfiles></container>";
    let archive = archive_with(container, GOOD_PACKAGE);
    assert_eq!(
        expect_err(EpubDoc::new(archive)),
        DocError { kind: ErrorKind::ResourcePathNotFound("OEBPS/other.opf".to_string()) }
    );
}

#[test]
fn package_without_manifest() {
    let package = "<package>\
<metadata><title>x</title></metadata>\
<spine><itemref idref=\"a\"/></spine>\
</package>";
    let archive = archive_with(GOOD_CONTAINER, package);
    assert_eq!(
        expect_err(EpubDoc::new(archive)),
        DocError { kind: ErrorKind::ElementNotFound("manifest".to_string()) }
    );
}

#[test]
fn package_without_spine() {
    let package = "<package>\
<metadata><title>x</title></metadata>\
<manifest><item id=\"a\" href=\"a.txt\" media-type=\"text/plain\"/></manifest>\
</package>";
    let archive = archive_with(GOOD_CONTAINER, package);
    assert_eq!(
        expect_err(EpubDoc::new(archive)),
        DocError { kind: ErrorKind::ElementNotFound("spine".to_string()) }
    );
}

#[test]
fn package_without_metadata() {
    let package = "<package>\
<manifest><item id=\"a\" href=\"a.txt\" media-type=\"text/plain\"/></manifest>\
<spine><itemref idref=\"a\"/></spine>\
</package>";
    let archive = archive_with(GOOD_CONTAINER, package);
    assert_eq!(
        expect_err(EpubDoc::new(archive)),
        DocError { kind: ErrorKind::ElementNotFound("metadata".to_string()) }
    );
}

#[test]
fn manifest_item_missing_attributes() {
    for (item, missing) in [
        ("<item href=\"a.txt\" media-type=\"text/plain\"/>", "id"),
        ("<item id=\"a\" media-type=\"text/plain\"/>", "href"),
        ("<item id=\"a\" href=\"a.txt\"/>", "media-type"),
    ] {
        let package = format!(
            "<package>\
<metadata><title>x</title></metadata>\
<manifest>{}</manifest>\
<spine><itemref idref=\"a\"/></spine>\
</package>",
            item
        );
        let archive = archive_with(GOOD_CONTAINER, &package);
        assert_eq!(
            expect_err(EpubDoc::new(archive)),
            DocError { kind: ErrorKind::AttributeMissing(missing.to_string()) }
        );
    }
}

#[test]
fn spine_item_missing_idref() {
    let package = "<package>\
<metadata><title>x</title></metadata>\
<manifest><item id=\"a\" href=\"a.txt\" media-type=\"text/plain\"/></manifest>\
<spine><itemref linear=\"yes\"/></spine>\
</package>";
    let archive = archive_with(GOOD_CONTAINER, package);
    assert_eq!(
        expect_err(EpubDoc::new(archive)),
        DocError { kind: ErrorKind::AttributeMissing("idref".to_string()) }
    );
}

#[test]
fn meta_missing_name_or_content() {
    let package = "<package>\
<metadata><meta content=\"y\"/></metadata>\
<manifest><item id=\"a\" href=\"a.txt\" media-type=\"text/plain\"/></manifest>\
<spine><itemref idref=\"a\"/></spine>\
</package>";
    let archive = archive_with(GOOD_CONTAINER, package);
    assert_eq!(
        expect_err(EpubDoc::new(archive)),
        DocError { kind: ErrorKind::AttributeMissing("name".to_string()) }
    );
    let package2 = "<package>\
<metadata><meta name=\"x\"/></metadata>\
<manifest><item id=\"a\" href=\"a.txt\" media-type=\"text/plain\"/></manifest>\
<spine><itemref idref=\"a\"/></spine>\
</package>";
    let archive2 = archive_with(GOOD_CONTAINER, package2);
    assert_eq!(
        expect_err(EpubDoc::new(archive2)),
        DocError { kind: ErrorKind::AttributeMissing("content".to_string()) }
    );
}

#[test]
fn root_base_keeps_one_directory_level() {
    assert_eq!(derive_root_base("content.opf"), "/");
    assert_eq!(derive_root_base("OEBPS/content.opf"), "OEBPS/");
    assert_eq!(derive_root_base("a/b/c.opf"), "b/");
    assert_eq!(derive_root_base(""), "/");
}

#[test]
fn nested_package_file_drops_outer_directories() {
    let container = "<container><rootfiles>\
<rootfile full-path=\"deep/OEBPS/content.opf\"/>\
</rootfiles></container>";
    let mut archive = Archive::new();
    archive.add_entry(
        "META-INF/container.xml".to_string(),
        container.as_bytes().to_vec(),
    );
    archive.add_entry(
        "deep/OEBPS/content.opf".to_string(),
        GOOD_PACKAGE.as_bytes().to_vec(),
    );
    // only the immediate parent directory is kept in resource locations
    archive.add_entry("OEBPS/a.txt".to_string(), b"hello".to_vec());
    let mut doc = EpubDoc::new(archive).unwrap();
    assert_eq!(doc.root_base, "OEBPS/");
    assert_eq!(doc.get_current_path().unwrap(), "OEBPS/a.txt");
    assert_eq!(doc.get_resource("a").unwrap(), b"hello".to_vec());
}
