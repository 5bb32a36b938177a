use epub::archive::Archive;
use epub::doc::EpubDoc;
use epub::errors::{DocError, ErrorKind};

const CONTAINER: &str = "<?xml version=\"1.0\"?>\
<container version=\"1.0\">\
<rootfiles>\
<rootfile full-path=\"OEBPS/content.opf\" media-type=\"application/oebps-package+xml\"/>\
</rootfiles>\
</container>";

const PACKAGE: &str = "<?xml version=\"1.0\"?>\
<package version=\"2.0\">\
<metadata>\
<meta name=\"cover\" content=\"cover-image\"/>\
<title>Todo es m\u{ed}o</title>\
<language>es</language>\
</metadata>\
<manifest>\
<item id=\"titlepage.xhtml\" href=\"Text/titlepage.xhtml\" media-type=\"application/xhtml+xml\"/>\
<item id=\"000.xhtml\" href=\"Text/000.xhtml\" media-type=\"application/xhtml+xml\"/>\
<item id=\"001.xhtml\" href=\"Text/001.xhtml\" media-type=\"application/xhtml+xml\"/>\
<item id=\"002.xhtml\" href=\"Text/002.xhtml\" media-type=\"application/xhtml+xml\"/>\
<item id=\"cover-image\" href=\"images/cover.png\" media-type=\"image/png\"/>\
</manifest>\
<spine>\
<itemref idref=\"titlepage.xhtml\"/>\
<itemref idref=\"000.xhtml\"/>\
<itemref idref=\"001.xhtml\"/>\
<itemref idref=\"002.xhtml\"/>\
</spine>\
</package>";

fn make_archive(package: &str) -> Archive {
    let mut archive = Archive::new();
    archive.add_entry(
        "META-INF/container.xml".to_string(),
        CONTAINER.as_bytes().to_vec(),
    );
    archive.add_entry("OEBPS/content.opf".to_string(), package.as_bytes().to_vec());
    archive.add_entry(
        "OEBPS/Text/titlepage.xhtml".to_string(),
        b"<html>title page</html>".to_vec(),
    );
    archive.add_entry(
        "OEBPS/Text/000.xhtml".to_string(),
        b"<html>chapter zero</html>".to_vec(),
    );
    archive.add_entry(
        "OEBPS/Text/001.xhtml".to_string(),
        b"<html>chapter one</html>".to_vec(),
    );
    archive.add_entry(
        "OEBPS/Text/002.xhtml".to_string(),
        "<html>caf\u{e9}</html>".as_bytes().to_vec(),
    );
    archive.add_entry("OEBPS/images/cover.png".to_string(), vec![137, 80, 78, 71]);
    archive
}

fn make_doc() -> EpubDoc {
    EpubDoc::new(make_archive(PACKAGE)).unwrap()
}

#[test]
fn reading_scenario() {
    let mut doc = make_doc();
    assert_eq!(doc.get_num_pages(), 4);
    assert_eq!(doc.get_current_page(), 0);
    assert_eq!(doc.get_current_id().unwrap(), "titlepage.xhtml");
    assert!(doc.go_next().is_ok());
    assert!(doc.go_next().is_ok());
    assert!(doc.go_next().is_ok());
    assert_eq!(doc.get_current_id().unwrap(), "002.xhtml");
    assert_eq!(doc.go_next(), Err(DocError { kind: ErrorKind::LastPage }));
    assert_eq!(doc.get_current_id().unwrap(), "002.xhtml");
    assert!(doc.go_prev().is_ok());
    assert_eq!(doc.get_current_id().unwrap(), "001.xhtml");
}

#[test]
fn set_current_page_in_range() {
    let mut doc = make_doc();
    let n = doc.get_num_pages();
    for i in 0..n {
        assert!(doc.set_current_page(i).is_ok());
        assert_eq!(doc.get_current_page(), i);
    }
}

#[test]
fn set_current_page_out_of_range() {
    let mut doc = make_doc();
    assert!(doc.set_current_page(2).is_ok());
    assert_eq!(doc.set_current_page(4), Err(DocError { kind: ErrorKind::InvalidPageIndex(4) }));
    assert_eq!(doc.get_current_page(), 2);
    assert_eq!(doc.set_current_page(50), Err(DocError { kind: ErrorKind::InvalidPageIndex(50) }));
    assert_eq!(doc.get_current_page(), 2);
}

#[test]
fn bounds_leave_cursor_unchanged() {
    let mut doc = make_doc();
    assert_eq!(doc.go_prev(), Err(DocError { kind: ErrorKind::FirstPage }));
    assert_eq!(doc.get_current_page(), 0);
    assert!(doc.set_current_page(3).is_ok());
    assert_eq!(doc.go_next(), Err(DocError { kind: ErrorKind::LastPage }));
    assert_eq!(doc.get_current_page(), 3);
}

#[test]
fn next_then_prev_restores() {
    let mut doc = make_doc();
    assert!(doc.set_current_page(1).is_ok());
    assert!(doc.go_next().is_ok());
    assert!(doc.go_prev().is_ok());
    assert_eq!(doc.get_current_page(), 1);
    assert_eq!(doc.get_current_id().unwrap(), "000.xhtml");
}

#[test]
fn cover_scenario() {
    let mut doc = make_doc();
    assert_eq!(doc.root_base, "OEBPS/");
    assert_eq!(doc.get_cover_id().unwrap(), "cover-image");
    assert_eq!(doc.get_resource_mime("cover-image").unwrap(), "image/png");
    assert_eq!(doc.get_cover().unwrap(), vec![137, 80, 78, 71]);
}

#[test]
fn duplicate_manifest_ids_later_wins() {
    let package = "<package>\
<metadata><title>x</title></metadata>\
<manifest>\
<item id=\"a\" href=\"old.txt\" media-type=\"text/old\"/>\
<item id=\"a\" href=\"new.txt\" media-type=\"text/new\"/>\
</manifest>\
<spine><itemref idref=\"a\"/></spine>\
</package>";
    let mut archive = make_archive(package);
    archive.add_entry("OEBPS/old.txt".to_string(), b"old bytes".to_vec());
    archive.add_entry("OEBPS/new.txt".to_string(), b"new bytes".to_vec());
    let mut doc = EpubDoc::new(archive).unwrap();
    assert_eq!(doc.get_resource_mime("a").unwrap(), "text/new");
    assert_eq!(doc.get_resource("a").unwrap(), b"new bytes".to_vec());
    assert_eq!(doc.get_current_path().unwrap(), "OEBPS/new.txt");
    // the overwritten entry is gone from the table altogether
    assert_eq!(
        doc.get_resource_mime_by_path("OEBPS/old.txt"),
        Err(DocError { kind: ErrorKind::ResourcePathNotFound("OEBPS/old.txt".to_string()) })
    );
}

#[test]
fn mime_lookups_agree() {
    let doc = make_doc();
    let path = doc.get_current_path().unwrap();
    assert_eq!(path, "OEBPS/Text/titlepage.xhtml");
    assert_eq!(
        doc.get_resource_mime("titlepage.xhtml").unwrap(),
        doc.get_resource_mime_by_path(&path).unwrap()
    );
}

#[test]
fn resource_accessors() {
    let mut doc = make_doc();
    assert_eq!(
        doc.get_resource("000.xhtml").unwrap(),
        b"<html>chapter zero</html>".to_vec()
    );
    assert_eq!(
        doc.get_resource_by_path("OEBPS/Text/000.xhtml").unwrap(),
        b"<html>chapter zero</html>".to_vec()
    );
    assert_eq!(
        doc.get_resource_str_by_path("OEBPS/Text/002.xhtml").unwrap(),
        "<html>caf\u{e9}</html>"
    );
    assert_eq!(
        doc.get_resource_str("002.xhtml").unwrap(),
        "<html>caf\u{e9}</html>"
    );
    assert_eq!(
        doc.get_resource("nope"),
        Err(DocError { kind: ErrorKind::ResourceIdNotFound("nope".to_string()) })
    );
    assert_eq!(
        doc.get_resource_by_path("no/such/path"),
        Err(DocError { kind: ErrorKind::ResourcePathNotFound("no/such/path".to_string()) })
    );
}

#[test]
fn current_projections() {
    let mut doc = make_doc();
    assert_eq!(doc.get_current_mime().unwrap(), "application/xhtml+xml");
    assert_eq!(doc.get_current_path().unwrap(), "OEBPS/Text/titlepage.xhtml");
    assert_eq!(doc.get_current().unwrap(), b"<html>title page</html>".to_vec());
    assert!(doc.set_current_page(3).is_ok());
    assert_eq!(doc.get_current_str().unwrap(), "<html>caf\u{e9}</html>");
}

#[test]
fn metadata_values() {
    let doc = make_doc();
    assert_eq!(doc.metadata.get("title").unwrap(), "Todo es m\u{ed}o");
    assert_eq!(doc.metadata.get("language").unwrap(), "es");
    assert!(doc.metadata.get("absent").is_none());
}

#[test]
fn metadata_duplicate_keys_later_wins() {
    let package = "<package>\
<metadata>\
<title>first</title>\
<title>second</title>\
<meta name=\"cover\" content=\"one\"/>\
<meta name=\"cover\" content=\"two\"/>\
</metadata>\
<manifest><item id=\"a\" href=\"a.txt\" media-type=\"text/plain\"/></manifest>\
<spine><itemref idref=\"a\"/></spine>\
</package>";
    let doc = EpubDoc::new(make_archive(package)).unwrap();
    assert_eq!(doc.metadata.get("title").unwrap(), "second");
    assert_eq!(doc.get_cover_id().unwrap(), "two");
}

#[test]
fn cover_not_found() {
    let package = "<package>\
<metadata><title>x</title></metadata>\
<manifest><item id=\"a\" href=\"a.txt\" media-type=\"text/plain\"/></manifest>\
<spine><itemref idref=\"a\"/></spine>\
</package>";
    let mut doc = EpubDoc::new(make_archive(package)).unwrap();
    assert_eq!(doc.get_cover_id(), Err(DocError { kind: ErrorKind::CoverNotFound }));
    assert_eq!(doc.get_cover(), Err(DocError { kind: ErrorKind::CoverNotFound }));
}

#[test]
fn empty_spine_breaks_navigation() {
    let package = "<package>\
<metadata><title>x</title></metadata>\
<manifest><item id=\"a\" href=\"a.txt\" media-type=\"text/plain\"/></manifest>\
<spine></spine>\
</package>";
    let mut doc = EpubDoc::new(make_archive(package)).unwrap();
    assert_eq!(doc.get_num_pages(), 0);
    assert_eq!(doc.get_current_id(), Err(DocError { kind: ErrorKind::NavigationBroken }));
    assert_eq!(doc.go_next(), Err(DocError { kind: ErrorKind::LastPage }));
    assert_eq!(doc.go_prev(), Err(DocError { kind: ErrorKind::FirstPage }));
    assert_eq!(doc.set_current_page(0), Err(DocError { kind: ErrorKind::InvalidPageIndex(0) }));
}

#[test]
fn spine_id_missing_from_manifest_fails_lazily() {
    let package = "<package>\
<metadata><title>x</title></metadata>\
<manifest><item id=\"a\" href=\"a.txt\" media-type=\"text/plain\"/></manifest>\
<spine><itemref idref=\"ghost\"/></spine>\
</package>";
    // construction succeeds: spine membership is only checked at lookup time
    let mut doc = EpubDoc::new(make_archive(package)).unwrap();
    assert_eq!(doc.get_current_id().unwrap(), "ghost");
    assert_eq!(
        doc.get_current_mime(),
        Err(DocError { kind: ErrorKind::ResourceIdNotFound("ghost".to_string()) })
    );
    assert_eq!(
        doc.get_current(),
        Err(DocError { kind: ErrorKind::ResourceIdNotFound("ghost".to_string()) })
    );
}

#[test]
fn path_lookup_returns_first_match() {
    let package = "<package>\
<metadata><title>x</title></metadata>\
<manifest>\
<item id=\"a\" href=\"shared.txt\" media-type=\"text/a\"/>\
<item id=\"b\" href=\"shared.txt\" media-type=\"text/b\"/>\
</manifest>\
<spine><itemref idref=\"a\"/></spine>\
</package>";
    let doc = EpubDoc::new(make_archive(package)).unwrap();
    // two identifiers share a location: the scan returns the first entry
    assert_eq!(doc.get_resource_mime_by_path("OEBPS/shared.txt").unwrap(), "text/a");
    assert_eq!(doc.get_resource_mime("a").unwrap(), "text/a");
    assert_eq!(doc.get_resource_mime("b").unwrap(), "text/b");
}
