use remote_file::config::{parse_upload_limit, Config, LimitError, DEFAULT_UPLOAD_LIMIT_BYTES};
use remote_file::path::{
    clean_directory_name, clean_file_name, clean_path, encode_path, file_name, follow_public_link,
    is_public_path, join_virtual, normalize_path, normalize_public_request_path, numbered_file_name, path_behind_public,
    public_url_for_source_path, safe_join, source_path_from_public_url, split_extension,
};
use remote_file::percent::escape;
use remote_file::upload::{first_step, next_step, UploadConflict, UploadStep};
use remote_file::table::Table;

#[test]
fn parse_upload_limit_rejects_zero_and_invalid_values() {
    assert_eq!(parse_upload_limit("1024").unwrap(), 1024);
    assert!(parse_upload_limit("0").is_err());
    assert!(parse_upload_limit("not-a-number").is_err());
}

#[test]
fn public_url_maps_back_to_source_path() {
    assert_eq!(
        public_url_for_source_path("/docs/report.pdf"),
        "/public/docs/report.pdf"
    );
    assert_eq!(
        source_path_from_public_url("/public/docs/report.pdf"),
        "/docs/report.pdf"
    );
}

#[test]
fn upload_limit_edges() {
    assert_eq!(parse_upload_limit("  +42\n"), Ok(42));
    assert_eq!(parse_upload_limit("0007"), Ok(7));
    assert_eq!(parse_upload_limit("18446744073709551615"), Ok(usize::MAX));
    assert_eq!(parse_upload_limit("18446744073709551616"), Err(LimitError::NotANumber));
    assert_eq!(parse_upload_limit("99999999999999999999999"), Err(LimitError::NotANumber));
    assert_eq!(parse_upload_limit(""), Err(LimitError::NotANumber));
    assert_eq!(parse_upload_limit("+"), Err(LimitError::NotANumber));
    assert_eq!(parse_upload_limit("-1"), Err(LimitError::NotANumber));
    assert_eq!(parse_upload_limit("1 2"), Err(LimitError::NotANumber));
    assert_eq!(parse_upload_limit("000"), Err(LimitError::Zero));
    assert_eq!(
        LimitError::NotANumber.message(),
        "REMOTE_FILE_UPLOAD_LIMIT_BYTES must be a positive integer"
    );
    assert_eq!(
        LimitError::Zero.message(),
        "REMOTE_FILE_UPLOAD_LIMIT_BYTES must be greater than 0"
    );
}

#[test]
fn config_takes_values_or_defaults() {
    let config = Config::from_values(None, None, None, None).unwrap();
    assert_eq!(config.bind, "127.0.0.1:8080");
    assert_eq!(config.files_dir, "storage/files");
    assert_eq!(config.data_dir, "storage/meta");
    assert_eq!(config.upload_limit_bytes, 10 * 1024 * 1024 * 1024);
    assert_eq!(config.upload_limit_bytes, DEFAULT_UPLOAD_LIMIT_BYTES);
    let config = Config::from_values(
        Some("0.0.0.0:80".to_string()),
        Some("/data/files".to_string()),
        Some("/data/meta".to_string()),
        Some("5".to_string()),
    )
    .unwrap();
    assert_eq!(config.bind, "0.0.0.0:80");
    assert_eq!(config.files_dir, "/data/files");
    assert_eq!(config.data_dir, "/data/meta");
    assert_eq!(config.upload_limit_bytes, 5);
    let error = Config::from_values(None, None, None, Some("0".to_string())).unwrap_err();
    assert_eq!(error, LimitError::Zero);
}

#[test]
fn normal_form_drops_empty_and_dotted_pieces() {
    assert_eq!(normalize_path(""), "/");
    assert_eq!(normalize_path("/"), "/");
    assert_eq!(normalize_path("a//b/./c/"), "/a/b/c");
    assert_eq!(normalize_path("/a/../../b"), "/a/b");
    assert_eq!(normalize_path("/a%20b/%E4%B8%AD"), "/a b/中");
    assert_eq!(normalize_path("/a%2Fb"), "/a/b");
    assert_eq!(normalize_path("/100%"), "/100%");
    assert_eq!(normalize_path("/%FF"), "/%FF");
}

#[test]
fn normal_form_is_fixed() {
    for path in ["/", "/a", "/a b/中/c.txt", "x/../y"] {
        let once = normalize_path(path);
        assert_eq!(normalize_path(&once), once);
    }
}

#[test]
fn disk_paths_stay_below_the_root() {
    assert_eq!(safe_join("/srv/files", "/").unwrap(), "/srv/files");
    assert_eq!(safe_join("/srv/files", "/a/b.txt").unwrap(), "/srv/files/a/b.txt");
    assert_eq!(safe_join("/srv/files", "/../../etc/passwd").unwrap(), "/srv/files/etc/passwd");
    assert_eq!(safe_join("/srv/files", "%2e%2e/x").unwrap(), "/srv/files/x");
    assert_eq!(safe_join("storage/", "a").unwrap(), "storage/a");
    assert_eq!(safe_join("", "a/b").unwrap(), "a/b");
}

#[test]
fn virtual_children() {
    assert_eq!(join_virtual("/", "a"), "/a");
    assert_eq!(join_virtual("/a", "b"), "/a/b");
    assert_eq!(join_virtual("/a/", "b"), "/a/b");
}

#[test]
fn public_area() {
    assert!(is_public_path("/public"));
    assert!(is_public_path("/public/a"));
    assert!(!is_public_path("/publication"));
    assert!(!is_public_path("/a/public"));
}

#[test]
fn urls_of_paths_lead_back() {
    assert_eq!(encode_path("/a b/中.txt"), "/a%20b/%E4%B8%AD.txt");
    assert_eq!(encode_path("/"), "/");
    for path in ["/", "/a b/中.txt", "/100%/~x_y-z", "/a%20b"] {
        assert_eq!(normalize_path(&encode_path(path)), path);
    }
}

#[test]
fn public_links_hide_the_directory_of_a_user() {
    assert_eq!(
        public_url_for_source_path("/user/kyriechen/tools/file.ext"),
        "/public/tools/file.ext"
    );
    assert_eq!(public_url_for_source_path("/user/kyriechen"), "/public/user/kyriechen");
    assert_eq!(public_url_for_source_path("/a b.txt"), "/public/a%20b.txt");
    assert_eq!(source_path_from_public_url("/public/a%20b.txt"), "/a b.txt");
    assert_eq!(source_path_from_public_url("/other/x"), "/other/x");
}

#[test]
fn public_links_lie_below_the_public_area() {
    for (path, link) in [
        ("/docs/a.txt", "/public/docs/a.txt"),
        ("/public/x", "/public/x"),
        ("/public/public/x", "/public/public/x"),
        ("/publicity/a.txt", "/public/publicity/a.txt"),
        ("/user/bob/public.txt", "/public/public.txt"),
        ("/user/bob/public/x.txt", "/public/public/x.txt"),
        ("/user/bob/public", "/public/public"),
        ("/a%41.txt", "/public/a%2541.txt"),
    ] {
        assert_eq!(public_url_for_source_path(path), link);
    }
    assert_eq!(source_path_from_public_url("/public/publicity/a.txt"), "/publicity/a.txt");
    assert_eq!(source_path_from_public_url("/public/public/x"), "/public/x");
    assert_eq!(source_path_from_public_url("/public"), "/");
    assert_eq!(source_path_from_public_url("/publicity/a.txt"), "/publicity/a.txt");
    assert_eq!(follow_public_link("/docs/a b.txt"), "/public/docs/a b.txt");
    assert_eq!(follow_public_link("/public/x"), "/public/x");
    assert_eq!(follow_public_link("/user/bob/public/x.txt"), "/public/x.txt");
    assert_eq!(follow_public_link("/a%41.txt"), "/public/a%41.txt");
}

#[test]
fn paths_behind_the_public_area() {
    assert_eq!(path_behind_public("/public/docs/a%41.txt"), "/docs/a%41.txt");
    assert_eq!(path_behind_public("/public/public/x"), "/public/x");
    assert_eq!(path_behind_public("/public"), "/");
    assert_eq!(path_behind_public("/publicity/x"), "/publicity/x");
}

#[test]
fn escaped_texts_are_read_back() {
    assert_eq!(escape("a%41/b c"), "a%2541/b c");
    assert_eq!(escape(""), "");
    for text in ["/a%41.txt", "/100%", "/%25", "/中 x"] {
        assert_eq!(normalize_path(&escape(text)), text);
        assert_eq!(clean_path(text), text);
    }
    assert_eq!(clean_path("a%2F/../b/"), "/a%2F/b");
}

#[test]
fn public_requests_are_put_in_the_public_area() {
    assert_eq!(normalize_public_request_path("docs/a.txt"), "/public/docs/a.txt");
    assert_eq!(normalize_public_request_path("public/docs/a.txt"), "/public/docs/a.txt");
    assert_eq!(normalize_public_request_path(""), "/public/");
}

#[test]
fn names_of_files() {
    assert_eq!(file_name("/a/b.txt"), Some("b.txt".to_string()));
    assert_eq!(file_name("/a/b/"), Some("b".to_string()));
    assert_eq!(file_name("/"), None);
    assert_eq!(file_name("a/.."), None);
    assert_eq!(clean_file_name("../../x.txt"), "x.txt");
    assert_eq!(clean_file_name(".."), "upload.bin");
    assert_eq!(clean_file_name(""), "upload.bin");
    assert_eq!(clean_directory_name("  docs "), Some("docs".to_string()));
    assert_eq!(clean_directory_name("a/b"), None);
    assert_eq!(clean_directory_name("docs/"), None);
    assert_eq!(clean_directory_name(" . "), None);
    assert_eq!(clean_directory_name(".."), None);
    assert_eq!(clean_directory_name("   "), None);
}

#[test]
fn extensions_and_numbers() {
    assert_eq!(split_extension("a.tar.gz"), ("a.tar".to_string(), Some("gz".to_string())));
    assert_eq!(split_extension(".bashrc"), (".bashrc".to_string(), None));
    assert_eq!(split_extension("Makefile"), ("Makefile".to_string(), None));
    assert_eq!(split_extension("a."), ("a".to_string(), Some("".to_string())));
    assert_eq!(numbered_file_name("a.tar.gz", 3), "a.tar-3.gz");
    assert_eq!(numbered_file_name("Makefile", 12), "Makefile-12");
    assert_eq!(numbered_file_name("..", 1), "file-1");
}

fn query(key: &str, value: &str) -> Table<String> {
    let mut table: Table<String> = Table::new();
    table.insert(key.to_string(), value.to_string());
    table
}

#[test]
fn conflicts_come_from_the_query() {
    assert_eq!(UploadConflict::from_query(&query("conflict", "overwrite")), UploadConflict::Overwrite);
    assert_eq!(UploadConflict::from_query(&query("conflict", "rename")), UploadConflict::Rename);
    assert_eq!(UploadConflict::from_query(&query("conflict", "RENAME")), UploadConflict::Error);
    assert_eq!(UploadConflict::from_query(&query("other", "rename")), UploadConflict::Error);
    assert_eq!(UploadConflict::from_query(&Table::new()), UploadConflict::Error);
}

fn search(file_name: &str, conflict: UploadConflict, taken: &[String]) -> Result<String, u16> {
    let holds = |name: &str| taken.iter().any(|t| t == name);
    let mut step = first_step(file_name, holds(file_name), conflict);
    loop {
        step = match step {
            UploadStep::Write { name } => return Ok(name),
            UploadStep::Refuse { refusal } => {
                assert_eq!(
                    refusal.message,
                    if refusal.status == 409 { "文件已存在" } else { "无法生成可用文件名" }
                );
                return Err(refusal.status);
            }
            UploadStep::Ask { name, number } => next_step(file_name, number, holds(&name)),
        };
    }
}

#[test]
fn uploads_keep_what_is_there() {
    let taken = vec!["a.txt".to_string(), "a-1.txt".to_string(), "a-2.txt".to_string()];
    assert_eq!(search("b.txt", UploadConflict::Error, &taken), Ok("b.txt".to_string()));
    assert_eq!(search("a.txt", UploadConflict::Error, &taken), Err(409));
    assert_eq!(search("a.txt", UploadConflict::Overwrite, &taken), Ok("a.txt".to_string()));
    assert_eq!(search("a.txt", UploadConflict::Rename, &taken), Ok("a-3.txt".to_string()));
    let mut all = vec!["x".to_string()];
    for number in 1..1000 {
        all.push(format!("x-{number}"));
    }
    assert_eq!(search("x", UploadConflict::Rename, &all), Err(500));
    all.pop();
    assert_eq!(search("x", UploadConflict::Rename, &all), Ok("x-999".to_string()));
}
