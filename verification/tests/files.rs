use zed_web::request::{HeaderField, RequestHead};
use zed_web::serve::files::{
    begin_upload, check_not_a_directory, check_target, content_length, content_type_for,
    multer_error, path_param, plan_asset, plan_download, plan_upload, sanitize_filename, temp_path,
    temp_tag, validate_asset_segment, validate_extension_asset, validate_upload_file_name,
    BodyReadError, BoundedBody, Download, FilesError, Metadata, MultipartFault, PartStep, Upload,
    UploadBudget, UploadKind, MAX_FILES_PER_UPLOAD, MAX_UPLOAD_BYTES, TEMP_SUFFIX,
};
use zed_web::serve::paths::{
    below_root, confine, has_drive_prefix, resolve_decoded, resolve_under_root, AncestorProbe,
};
use zed_web::serve::transfer::{FileWrite, WriteEvent, WritePhase};
use zed_web::serve::walk::{
    AddOutcome, ArchiveStep, ArchiveWalk, EntryKind, OpenOutcome, SweepStep, SweepWalk,
};

fn request(target: &str, headers: &[(&str, &str)]) -> RequestHead {
    let (path, query) = match target.split_once('?') {
        Some((path, query)) => (path, Some(query.to_owned())),
        None => (target, None),
    };
    RequestHead {
        method: "POST".to_owned(),
        path: path.to_owned(),
        query,
        headers: headers
            .iter()
            .map(|(name, value)| HeaderField {
                name: name.to_string(),
                value: value.as_bytes().to_vec(),
            })
            .collect(),
    }
}

fn names(parts: &[&str]) -> Vec<String> {
    parts.iter().map(|part| part.to_string()).collect()
}

fn real_path(parts: &[&str]) -> Vec<Vec<u8>> {
    parts.iter().map(|part| part.as_bytes().to_vec()).collect()
}

fn upload(target: &str, content_type: &str) -> Upload {
    let req = request(target, &[("content-type", content_type)]);
    Upload::new(begin_upload(&req, MAX_UPLOAD_BYTES).unwrap(), "tag".to_owned(), MAX_UPLOAD_BYTES)
}

#[test]
fn resolve_accepts_relative() {
    assert_eq!(resolve_under_root("a/b.txt").unwrap(), names(&["a", "b.txt"]));
    assert_eq!(resolve_under_root("./a").unwrap(), names(&["a"]));
    assert_eq!(resolve_under_root("a/./b").unwrap(), names(&["a", "b"]));
    assert_eq!(resolve_under_root("a%2Fb.txt").unwrap(), names(&["a", "b.txt"]));
    assert_eq!(resolve_under_root("a/../b").unwrap(), names(&["b"]));
    assert_eq!(resolve_under_root(".").unwrap(), names(&[]));
}

#[test]
fn resolve_rejects_traversal() {
    assert!(matches!(resolve_under_root("../x"), Err(FilesError::Traversal)));
    assert!(matches!(resolve_under_root("a/../../x"), Err(FilesError::Traversal)));
    for invalid in ["/etc/passwd", "a\0b", "", "C:\\x", "a\\b", "c:x", "%2Fetc", "%ff"] {
        assert!(
            matches!(resolve_under_root(invalid), Err(FilesError::InvalidPath)),
            "{invalid:?}"
        );
    }
    assert!(has_drive_prefix("z:"));
    assert!(!has_drive_prefix("1:"));
    assert!(matches!(resolve_decoded("a%2Fb"), Ok(path) if path == names(&["a%2Fb"])));
}

#[test]
fn resolve_rejects_symlink_escape() {
    let root = real_path(&["srv", "root"]);
    let outside = AncestorProbe::Real(real_path(&["tmp", "outside"]));
    let probes = vec![AncestorProbe::NotFound, outside];
    assert!(matches!(confine(&root, probes), Err(FilesError::Traversal)));
    let probes = vec![AncestorProbe::NotFound, AncestorProbe::Real(real_path(&["srv", "root", "a"]))];
    assert!(confine(&root, probes).is_ok());
    let sibling = vec![AncestorProbe::Real(real_path(&["srv", "root2"]))];
    assert!(matches!(confine(&root, sibling), Err(FilesError::Traversal)));
    assert!(matches!(confine(&root, vec![]), Err(FilesError::Traversal)));
    assert!(matches!(
        confine(&root, vec![AncestorProbe::PermissionDenied]),
        Err(FilesError::NotFound)
    ));
    assert!(matches!(
        confine(&root, vec![AncestorProbe::Failed("disk".into())]),
        Err(FilesError::Io(message)) if message == "disk"
    ));
    assert!(below_root(&root, &root));
}

#[test]
fn resolve_rejects_a_path_below_a_file_as_bad_input() {
    let root = real_path(&["srv"]);
    let probes = vec![AncestorProbe::NotADirectory];
    assert!(matches!(confine(&root, probes), Err(FilesError::InvalidPath)));
}

#[test]
fn octet_stream_upload_writes_file() {
    let mut upload = upload("/files?path=dir%2Ff.bin", "application/octet-stream");
    assert!(matches!(upload.plan.kind, UploadKind::OctetStream));
    assert_eq!(upload.plan.place, names(&["dir", "f.bin"]));
    upload.chunk(5).unwrap();
    upload.file_written(names(&["dir", "f.bin"]));
    assert_eq!(upload.response().written, vec!["dir/f.bin".to_owned()]);
    assert_eq!(upload.budget.remaining, MAX_UPLOAD_BYTES - 5);
}

#[test]
fn multipart_upload_writes_all_parts() {
    let mut upload = upload("/files?path=up", "multipart/form-data; boundary=zsboundary");
    match &upload.plan.kind {
        UploadKind::Multipart { boundary } => assert_eq!(boundary, "zsboundary"),
        UploadKind::OctetStream => panic!("not multipart"),
    }
    assert!(matches!(upload.next_part(None), Ok(PartStep::Skip)));
    for name in ["a.txt", "sub/b.txt"] {
        match upload.next_part(Some(name)) {
            Ok(PartStep::Write(target)) => {
                check_target(&upload.plan.place, &target).unwrap();
                upload.file_written(target);
            }
            other => panic!("{other:?}"),
        }
    }
    assert_eq!(
        upload.response().written,
        vec!["up/a.txt".to_owned(), "up/sub/b.txt".to_owned()]
    );
}

#[test]
fn multipart_upload_rejects_traversal_in_filename() {
    let mut upload = upload("/files?path=up", "multipart/form-data; boundary=zsboundary");
    let target = match upload.next_part(Some("../escape.txt")) {
        Ok(PartStep::Write(target)) => target,
        other => panic!("{other:?}"),
    };
    assert_eq!(target, names(&["escape.txt"]));
    assert!(matches!(check_target(&upload.plan.place, &target), Err(FilesError::Traversal)));
}

#[test]
fn multipart_upload_rejects_filenames_that_name_the_directory() {
    let mut upload = upload("/files?path=newdir", "multipart/form-data; boundary=zsboundary");
    for file_name in ["", ".", "..", "./", "../"] {
        let error = match upload.next_part(Some(file_name)) {
            Ok(PartStep::Write(target)) => {
                check_target(&upload.plan.place, &target).err().unwrap()
            }
            Ok(PartStep::Skip) => panic!("skipped"),
            Err(error) => error,
        };
        assert!(
            matches!(error, FilesError::InvalidPath | FilesError::Traversal),
            "{file_name:?}: {error:?}"
        );
    }
    let same = names(&["newdir"]);
    assert!(matches!(check_target(&same, &same), Err(FilesError::InvalidPath)));
    assert!(matches!(check_not_a_directory(true), Err(FilesError::InvalidPath)));
    assert!(check_not_a_directory(false).is_ok());
    for fine in ["sub/", "sub/.", "a/b", "...", "./a"] {
        assert!(validate_upload_file_name(fine).is_ok(), "{fine:?}");
    }
    for bad in ["/a", "a\\b", "a/..", "c:\\x"] {
        assert!(validate_upload_file_name(bad).is_err(), "{bad:?}");
    }
}

#[test]
fn upload_too_large_is_413_early() {
    let length = (MAX_UPLOAD_BYTES + 1).to_string();
    let headers = [("content-type", "application/octet-stream"), ("content-length", &length[..])];
    let req = request("/files?path=big.bin", &headers);
    assert_eq!(content_length(&req), Some(MAX_UPLOAD_BYTES + 1));
    assert!(matches!(begin_upload(&req, MAX_UPLOAD_BYTES), Err(FilesError::TooLarge)));
    let length = |text: &str| content_length(&request("/", &[("content-length", text)]));
    assert_eq!(length(" 12 "), Some(12));
    assert_eq!(length("+7"), Some(7));
    assert_eq!(length("18446744073709551615"), Some(u64::MAX));
    for bad in ["", "x", "-1", "1x", "+", "18446744073709551616"] {
        assert_eq!(length(bad), None, "{bad:?}");
    }
}

#[test]
fn upload_too_large_is_413_streaming() {
    let mut budget = UploadBudget { remaining: 10 };
    assert!(budget.consume(4).is_ok());
    assert!(budget.consume(6).is_ok());
    assert!(matches!(budget.consume(1), Err(FilesError::TooLarge)));
    let mut budget = UploadBudget { remaining: 10 };
    assert!(matches!(budget.consume(11), Err(FilesError::TooLarge)));
    assert_eq!(budget.remaining, 0);
}

#[test]
fn chunked_multipart_header_run_is_413_with_bounded_memory() {
    let mut body = BoundedBody { remaining: 100 };
    assert!(matches!(body.pass(Ok(64)), Ok(64)));
    assert!(matches!(body.pass(Err("reset".into())), Err(BodyReadError::Body(_))));
    assert_eq!(body.remaining, 36);
    let error = body.pass(Ok(37)).err().unwrap();
    assert_eq!(error.message(), "upload body over the limit");
    assert!(matches!(error.into_files_error(), FilesError::TooLarge));
    assert_eq!(body.remaining, 0);
    let failed = MultipartFault::StreamReadFailed(Some(BodyReadError::TooLarge), "x".into());
    assert!(matches!(multer_error(failed), FilesError::TooLarge));
    let body = BodyReadError::Body("x".into());
    let failed = MultipartFault::StreamReadFailed(Some(body), "failed to read stream".into());
    assert!(matches!(multer_error(failed), FilesError::Malformed(_)));
    assert!(matches!(multer_error(MultipartFault::StreamSizeExceeded), FilesError::TooLarge));
    assert!(matches!(multer_error(MultipartFault::FieldSizeExceeded), FilesError::TooLarge));
    assert!(matches!(
        multer_error(MultipartFault::Other("bad".into())),
        FilesError::Malformed(message) if message == "bad"
    ));
}

#[test]
fn upload_too_many_parts_is_413() {
    let mut upload = upload("/files?path=many", "multipart/form-data; boundary=zsboundary");
    for index in 0..MAX_FILES_PER_UPLOAD {
        assert!(upload.next_part(Some(&format!("f{index}.txt"))).is_ok());
    }
    assert!(upload.next_part(None).is_ok());
    assert!(matches!(upload.next_part(Some("one.txt")), Err(FilesError::TooManyFiles)));
}

#[test]
fn unsupported_media_is_415() {
    let plan = |target: &str, content_type: &str| {
        begin_upload(&request(target, &[("content-type", content_type)]), 10)
    };
    let error = plan("/files?path=x", "text/plain").err().unwrap();
    assert!(matches!(error, FilesError::UnsupportedMedia));
    assert_eq!((error.status(), error.code()), (415, "unsupported_media_type"));
    let error = plan("/files", "text/plain").err().unwrap();
    assert!(matches!(error, FilesError::InvalidPath));
    let error = plan("/files?path=x", "multipart/form-data").err().unwrap();
    match error {
        FilesError::Malformed(message) => {
            assert_eq!(message, "multipart boundary not found in Content-Type");
        }
        other => panic!("{other:?}"),
    }
    assert!(plan("/files?path=x", " Application/Octet-Stream ; charset=x").is_ok());
    let error = plan("/files?path=../x", "application/octet-stream").err().unwrap();
    assert_eq!((error.status(), error.code()), (400, "path_outside_root"));
    let direct = plan_upload(Some("a".into()), Some(11), 10, "application/octet-stream", Ok("".into()));
    assert_eq!(direct.err().unwrap().status(), 413);
}

#[test]
fn the_first_path_of_a_query_counts() {
    assert_eq!(path_param(&request("/files?x=1&path=a%2fb&path=c", &[])), Some("a/b".into()));
    assert_eq!(path_param(&request("/files?path", &[])), Some(String::new()));
    assert_eq!(path_param(&request("/files", &[])), None);
}

#[test]
fn temporary_files_are_tagged() {
    assert_eq!(temp_tag("jti_../sid-1", 7), "jti_sid-1");
    assert_eq!(temp_tag("../..", 42), "42");
    assert_eq!(temp_tag(&"a".repeat(100), 7), "a".repeat(64));
    assert_eq!(temp_path("/w/f.bin", "x"), "/w/f.bin.zs-upload-x");
}

#[test]
fn a_file_is_written_whole_or_not_at_all() {
    let mut budget = UploadBudget { remaining: 10 };
    let mut write = FileWrite::new();
    let events = [
        (WriteEvent::Succeeded, WritePhase::OpeningTemp),
        (WriteEvent::Succeeded, WritePhase::Reading),
        (WriteEvent::Chunk(6), WritePhase::Writing),
        (WriteEvent::Succeeded, WritePhase::Reading),
        (WriteEvent::BodyEnd, WritePhase::Flushing),
        (WriteEvent::Succeeded, WritePhase::Renaming),
        (WriteEvent::Succeeded, WritePhase::Done),
    ];
    for (event, phase) in events {
        write.step(event, &mut budget);
        assert_eq!(write.phase, phase);
    }
    assert_eq!(budget.remaining, 4);

    let mut write = FileWrite::new();
    write.step(WriteEvent::Succeeded, &mut budget);
    write.step(WriteEvent::Succeeded, &mut budget);
    write.step(WriteEvent::Chunk(5), &mut budget);
    assert_eq!(write.phase, WritePhase::Removing);
    assert!(matches!(write.error, Some(FilesError::TooLarge)));
    write.step(WriteEvent::Failed(FilesError::NotFound), &mut budget);
    assert_eq!(write.phase, WritePhase::Failed);
    assert!(matches!(write.error, Some(FilesError::TooLarge)));

    let mut write = FileWrite::new();
    write.step(WriteEvent::Failed(FilesError::Io("full".into())), &mut budget);
    assert_eq!(write.phase, WritePhase::Failed);
}

#[test]
fn download_file_streams_bytes() {
    let metadata = Metadata::File { len: 17 };
    match plan_download(&names(&["d", "data.bin"]), Some("root"), metadata) {
        Ok(Download::File { len, content_type, disposition }) => {
            assert_eq!(len, 17);
            assert_eq!(content_type, "application/octet-stream");
            assert_eq!(disposition.unwrap(), "attachment; filename=\"data.bin\"");
        }
        other => panic!("{other:?}"),
    }
}

#[test]
fn download_dir_is_tar() {
    let archive = |target: &[&str], root: Option<&str>| {
        match plan_download(&names(target), root, Metadata::Directory) {
            Ok(Download::Archive { name, disposition }) => (name, disposition),
            other => panic!("{other:?}"),
        }
    };
    let d = archive(&["d"], Some("root"));
    assert_eq!(d, ("d".to_owned(), "attachment; filename=\"d.tar\"".to_owned()));
    assert_eq!(archive(&[], Some("root")).0, "root");
    assert_eq!(archive(&[], None).0, "workspace");
}

#[test]
fn download_missing_is_404() {
    let missing = plan_download(&names(&["nope.txt"]), None, Metadata::NotFound);
    assert!(matches!(missing, Err(FilesError::NotFound)));
    let special = plan_download(&names(&["pipe"]), None, Metadata::Special);
    assert!(matches!(special, Err(FilesError::NotFound)));
    let failed = plan_download(&names(&["x"]), None, Metadata::Failed("disk".into()));
    assert_eq!(failed.err().unwrap().status(), 500);
}

#[test]
fn file_names_are_made_safe() {
    assert_eq!(sanitize_filename("a\"b\\c\r\n\u{7f}\u{85}é"), "a_b_c____é");
}

#[test]
fn download_dir_skips_special_files() {
    let mut walk = ArchiveWalk::new("d");
    assert_eq!(walk.next_directory(), Some("d"));
    assert!(matches!(walk.entry(EntryKind::File, "d/a.txt"), ArchiveStep::AddFile));
    assert!(matches!(walk.entry(EntryKind::Special, "d/x.sock"), ArchiveStep::Skip));
    assert!(matches!(walk.entry(EntryKind::Vanished, "d/gone"), ArchiveStep::Skip));
    assert!(matches!(walk.entry(EntryKind::Directory, "d/sub"), ArchiveStep::AddDirectory));
    assert!(matches!(walk.entry(EntryKind::Failed("io".into()), "d/x"), ArchiveStep::Abort(_)));
    assert_eq!(walk.next_directory(), Some("d/sub"));
    assert_eq!(walk.next_directory(), None);
    assert_eq!(ArchiveWalk::<u8>::opened(OpenOutcome::PermissionDenied), Ok(false));
    assert_eq!(ArchiveWalk::<u8>::opened(OpenOutcome::Opened), Ok(true));
    assert!(ArchiveWalk::<u8>::opened(OpenOutcome::Failed("io".into())).is_err());
    assert!(ArchiveWalk::<u8>::added(AddOutcome::Vanished).is_ok());
    assert!(ArchiveWalk::<u8>::added(AddOutcome::Failed("io".into())).is_err());
}

#[test]
fn download_dir_does_not_follow_symlinks() {
    let mut walk = ArchiveWalk::new("d");
    walk.next_directory();
    assert!(matches!(walk.entry(EntryKind::Link, "d/link"), ArchiveStep::AddFile));
    assert_eq!(walk.next_directory(), None);
}

#[test]
fn archives_are_bounded() {
    let mut walk = ArchiveWalk::new(());
    walk.entries = 100_000;
    match walk.entry(EntryKind::File, ()) {
        ArchiveStep::Abort(message) => {
            assert_eq!(message, "directory has more than 100000 entries");
        }
        other => panic!("{other:?}"),
    }
}

#[test]
fn sweep_removes_stale_temp_files() {
    let mut sweep = SweepWalk::new("root");
    assert_eq!(sweep.next_directory(), Some(("root", 0)));
    let old = format!("x{TEMP_SUFFIX}old");
    assert_eq!(sweep.entry(&EntryKind::File, &old, "x", 0), SweepStep::Examine);
    assert_eq!(sweep.entry(&EntryKind::File, "x", "x", 0), SweepStep::Keep);
    assert_eq!(sweep.entry(&EntryKind::Link, &old, "x", 0), SweepStep::Keep);
    assert_eq!(sweep.entry(&EntryKind::Directory, "nested", "nested", 0), SweepStep::Enter);
    assert_eq!(sweep.entry(&EntryKind::Directory, "deep", "deep", 32), SweepStep::Keep);
    assert_eq!(sweep.next_directory(), Some(("nested", 1)));
    assert!(SweepWalk::<u8>::is_stale(Some(5), 6));
    sweep.visited = 200_000;
    assert_eq!(sweep.entry(&EntryKind::File, &old, "x", 0), SweepStep::Stop);
}

#[test]
fn sweep_keeps_temp_files_newer_than_the_cutoff() {
    assert!(!SweepWalk::<u8>::is_stale(Some(6), 6));
    assert!(!SweepWalk::<u8>::is_stale(None, 6));
}

#[test]
fn extension_asset_rejects_dot_id_before_gpui() {
    for id in [".", "..", "Theme", "a/b"] {
        let error = validate_extension_asset(id, "x.json").err().unwrap();
        assert!(matches!(error, FilesError::InvalidPath), "{id:?}: {error:?}");
    }
}

#[test]
fn extension_asset_streams_file() {
    assert!(validate_extension_asset("theme-x", "themes/x.json").is_ok());
    match plan_asset(Some("/e/theme-x/themes/x.JSON"), Metadata::File { len: 11 }) {
        Ok(Download::File { len, content_type, disposition }) => {
            assert_eq!((len, content_type), (11, "application/json"));
            assert!(disposition.is_none());
        }
        other => panic!("{other:?}"),
    }
}

#[test]
fn extension_asset_unknown_is_404() {
    let gone = plan_asset(None, Metadata::NotFound);
    assert!(matches!(gone, Err(FilesError::NotFound)));
    let directory = plan_asset(Some("/e/theme-x"), Metadata::Directory);
    assert!(matches!(directory, Err(FilesError::NotFound)));
    let failed = plan_asset(Some("/e"), Metadata::Failed("disk".into()));
    assert!(matches!(failed, Err(FilesError::Io(_))));
    assert!(matches!(validate_asset_segment("../x"), Err(FilesError::InvalidPath)));
    assert!(validate_asset_segment("a/..b").is_ok());
    assert!(matches!(validate_extension_asset("../x", "x.json"), Err(FilesError::InvalidPath)));
}

#[test]
fn content_types_go_by_the_extension() {
    for (path, content_type) in [
        ("a.css", "text/css; charset=utf-8"),
        ("d/a.PNG", "image/png"),
        ("a.b.svg", "image/svg+xml"),
        ("a.ttf", "font/ttf"),
        ("a.woff2", "font/woff2"),
        ("a.wasm", "application/wasm"),
        ("a.wasm/", "application/wasm"),
        (".css", "application/octet-stream"),
        ("css", "application/octet-stream"),
        ("a.css/..", "application/octet-stream"),
        ("a.", "application/octet-stream"),
    ] {
        assert_eq!(content_type_for(path), content_type, "{path}");
    }
}
