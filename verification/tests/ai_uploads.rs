use ollaic::ai::media_fetch::{
    begin_fetch, fetch_media, Answer, FetchEvent, FetchPhase, SendFault,
};
use ollaic::ai::safe_media_fetch::{
    bare_host, check_addresses, check_response, download_target, first_hop, follow, hop_parts,
    is_public_download_ip, next_hop, validate_download_url, BodyCollector, DownloadTarget,
    Endpoint, Hop, HopOutcome, IpAddress, Location, MediaKind, ResolvedAddress, UrlParts,
    MAX_MEDIA_BYTES, MAX_MEDIA_REDIRECTS,
};
use ollaic::ai::uploads::{
    check_import, check_room, decode_text, delete_ai_upload, extension_of, find_upload,
    import_ai_upload, index_path, list_ai_uploads, prune_missing, read_ai_upload,
    sanitize_stored_name, stored_path, summarize, unique_id, uploads_dir, validate_extension,
    AiUpload, SourceState, MAX_UPLOAD_BYTES, MAX_UPLOAD_COUNT,
};

/// Imports a file of these bytes as the application does.
fn import(
    uploads: &mut Vec<AiUpload>,
    source: &str,
    bytes: &[u8],
    now: u128,
) -> Result<(AiUpload, String), String> {
    let state = SourceState::Present(bytes.len() as u64);
    let (name, ext) = check_import("/p", true, source, &state, "3.0 MB", "2.0 MB")?;
    let made = import_ai_upload(
        uploads,
        &name,
        &ext,
        bytes.len() as u64,
        &bytes.to_vec(),
        now,
        now,
    )?;
    uploads.push(made.0.clone());
    Ok(made)
}

#[test]
fn imports_lists_reads_and_deletes_a_reference_file() {
    let mut uploads = Vec::new();
    let bytes = "# 世界观\n第二行\n第三行\n".as_bytes();
    let (upload, stored) = import(&mut uploads, "/src/设定集.md", bytes, 7).unwrap();
    assert_eq!(upload.name, "设定集.md");
    assert_eq!(upload.extension, "md");
    assert_eq!(upload.line_count, 3);
    assert!(upload.summary.contains("世界观"));
    assert_eq!(
        stored_path("/p", &upload).unwrap(),
        format!("/p/.webgal-editor/ai-uploads/{}", upload.stored_name)
    );

    let (kept, changed) = prune_missing(uploads, &vec![true]);
    assert!(!changed);
    let listed = list_ai_uploads(kept);
    assert_eq!(listed.len(), 1);
    assert_eq!(listed[0].id, upload.id);

    let at = find_upload(&listed, &upload.id).unwrap();
    let content =
        read_ai_upload(&listed[at], &stored.into_bytes(), Some(2), Some(1)).unwrap();
    assert_eq!(content.text, "第二行");
    assert_eq!(content.total_lines, 3);
    assert!(content.truncated);

    let (gone, rest) = delete_ai_upload(listed, &upload.id).unwrap();
    assert_eq!(gone.id, upload.id);
    assert!(rest.is_empty());
}

#[test]
fn rejects_unsupported_oversized_and_binary_files() {
    let mut uploads = Vec::new();
    let err = import(&mut uploads, "/src/bg.png", b"\x89PNG\r\n", 1).unwrap_err();
    assert!(err.contains("不支持的参考文件类型 .png"), "{err}");

    let big = vec![b'a'; (MAX_UPLOAD_BYTES + 1) as usize];
    let err = import(&mut uploads, "/src/big.txt", &big, 1).unwrap_err();
    assert!(err.contains("过大"), "{err}");

    let err = import(&mut uploads, "/src/bad.txt", &[0xff, 0xfe, 0x00, 0x01], 1).unwrap_err();
    assert!(err.contains("UTF-8"), "{err}");

    let err =
        check_import("/p", true, "/src/nope.txt", &SourceState::Missing, "", "").unwrap_err();
    assert!(err.contains("找不到文件"), "{err}");
    let unreadable = SourceState::Unreadable("denied".to_string());
    assert!(check_import("/p", true, "/src/a.txt", &unreadable, "", "").is_err());
    assert!(check_import("/p", false, "/src/a.txt", &SourceState::Present(1), "", "").is_err());
}

#[test]
fn stored_names_stay_inside_the_upload_directory() {
    let name = sanitize_stored_name("ref-1", "../../etc/passwd.txt");
    assert_eq!(name, "ref-1-passwd.txt");
    assert_eq!(sanitize_stored_name("ref-3", "Notes (2).TXT"), "ref-3-Notes__2.txt");

    let name = sanitize_stored_name("ref-2", "a b/c:d*e.md");
    assert!(!name.contains('/') && !name.contains('\\'));
    assert!(name.ends_with(".md"));
}

#[test]
fn missing_files_are_pruned_from_the_index() {
    let mut uploads = Vec::new();
    import(&mut uploads, "/src/notes.txt", b"hello", 1).unwrap();
    let (kept, changed) = prune_missing(uploads, &vec![false]);
    assert!(changed);
    assert!(list_ai_uploads(kept).is_empty());
}

#[test]
fn extensions_are_read_in_lower_case() {
    assert_eq!(extension_of("Notes.TXT"), "txt");
    assert_eq!(validate_extension("Notes.MD").unwrap(), "md");
    assert!(validate_extension("noextension").is_err());
}

#[test]
fn a_byte_order_mark_and_carriage_returns_are_dropped() {
    let bytes = b"\xef\xbb\xbfa\r\nb".to_vec();
    assert_eq!(decode_text(&bytes, "n").unwrap(), "a\nb");
}

#[test]
fn the_newest_upload_is_listed_first() {
    let mut uploads = Vec::new();
    import(&mut uploads, "/src/a.txt", b"a", 1).unwrap();
    import(&mut uploads, "/src/b.txt", b"b", 2).unwrap();
    let listed = list_ai_uploads(uploads);
    assert_eq!((listed[0].name.as_str(), listed[1].name.as_str()), ("b.txt", "a.txt"));
}

#[test]
fn times_are_compared_as_numbers() {
    let mut uploads = Vec::new();
    import(&mut uploads, "/src/old.txt", b"a", 999).unwrap();
    import(&mut uploads, "/src/new.txt", b"b", 1000).unwrap();
    import(&mut uploads, "/src/tie.txt", b"c", 1000).unwrap();
    let names = |list: Vec<AiUpload>| -> Vec<String> {
        list_ai_uploads(list).into_iter().map(|u| u.name).collect()
    };
    assert_eq!(names(uploads.clone()), vec!["new.txt", "tie.txt", "old.txt"]);
    uploads[2].imported_at = "0999".to_string();
    assert_eq!(names(uploads.clone()), vec!["new.txt", "old.txt", "tie.txt"]);
    // A time that is no number leaves the order of texts.
    uploads[2].imported_at = "yesterday".to_string();
    assert_eq!(names(uploads), vec!["tie.txt", "old.txt", "new.txt"]);
}

#[test]
fn ids_are_not_used_twice() {
    let mut uploads = Vec::new();
    let (first, _) = import(&mut uploads, "/src/a.txt", b"a", 5).unwrap();
    let (second, _) = import(&mut uploads, "/src/a.txt", b"a", 5).unwrap();
    assert_ne!(first.id, second.id);
    assert!(!uploads.iter().any(|u| u.id == unique_id(&uploads, 5)));
}

#[test]
fn only_so_many_files_are_kept() {
    let mut uploads = Vec::new();
    for i in 0..MAX_UPLOAD_COUNT {
        import(&mut uploads, "/src/a.txt", b"a", i as u128).unwrap();
    }
    assert!(check_room(&uploads).is_err());
    assert!(import(&mut uploads, "/src/a.txt", b"a", 1000).is_err());
    assert!(find_upload(&uploads, "nothing").is_err());
}

#[test]
fn short_files_are_read_whole() {
    let mut uploads = Vec::new();
    let (upload, stored) = import(&mut uploads, "/src/a.txt", b"one\ntwo", 1).unwrap();
    let content = read_ai_upload(&upload, &stored.into_bytes(), None, None).unwrap();
    assert_eq!(content.text, "one\ntwo");
    assert_eq!((content.from_line, content.to_line), (1, 2));
    assert!(!content.truncated);
}

#[test]
fn uploads_have_their_places() {
    assert_eq!(uploads_dir("/p"), "/p/.webgal-editor/ai-uploads");
    assert!(index_path("/p").starts_with("/p/.webgal-editor/ai-uploads/"));
    assert_eq!(summarize("  a\n\n b  "), "a b");
}

fn parts(scheme: &str, host: &str) -> UrlParts {
    UrlParts {
        scheme: scheme.into(),
        host: Some(host.into()),
        port: Some(443),
    }
}

#[test]
fn addresses_of_internal_networks_are_refused() {
    for forbidden in [
        IpAddress::V4([127, 0, 0, 1]),
        IpAddress::V4([10, 1, 2, 3]),
        IpAddress::V4([169, 254, 169, 254]),
        IpAddress::V4([192, 168, 0, 1]),
        IpAddress::V4([0, 0, 0, 0]),
        IpAddress::V6([0, 0, 0, 0, 0, 0, 0, 1]),
        IpAddress::V6([0xfc00, 0, 0, 0, 0, 0, 0, 1]),
        IpAddress::V6([0xfe80, 0, 0, 0, 0, 0, 0, 1]),
        IpAddress::V6([0, 0, 0, 0, 0, 0xffff, 0x7f00, 1]),
    ] {
        assert!(!is_public_download_ip(forbidden), "{forbidden:?}");
    }
    assert!(is_public_download_ip(IpAddress::V4([8, 8, 8, 8])));
    assert!(is_public_download_ip(IpAddress::V6([0x2606, 0x4700, 0, 0, 0, 0, 0, 1])));
    assert!(is_public_download_ip(IpAddress::V6([0, 0, 0, 0, 0, 0xffff, 0x0808, 0x0808])));
}

#[test]
fn locations_are_checked() {
    assert!(validate_download_url(&parts("https", "example.com"), None).is_ok());
    assert!(validate_download_url(&parts("ftp", "example.com"), None).is_err());
    assert!(validate_download_url(&parts("https", "LocalHost"), None).is_err());
    assert!(validate_download_url(&parts("https", "printer.local"), None).is_err());
    let loopback = Some(IpAddress::V4([127, 0, 0, 1]));
    assert!(validate_download_url(&parts("https", "127.0.0.1"), loopback).is_err());
    let nowhere = UrlParts {
        scheme: "https".into(),
        host: None,
        port: None,
    };
    assert_eq!(
        validate_download_url(&nowhere, None).unwrap_err(),
        "下载 URL 缺少主机名"
    );
    assert_eq!(bare_host("[::1]"), "::1");
}

#[test]
fn redirects_are_followed_up_to_a_limit() {
    let hop = first_hop("https://example.com/a/b?x=1").unwrap();
    let parts = hop_parts(&hop).unwrap();
    assert_eq!(parts.scheme, "https");
    assert_eq!(
        download_target(&parts, None).unwrap(),
        DownloadTarget {
            host: "example.com".to_string(),
            port: 443
        }
    );
    assert_eq!(
        next_hop(&hop, 302, "302 Found", &Location::Text("/c".into())),
        HopOutcome::Follow(Hop {
            url: "https://example.com/c".to_string(),
            redirect_count: 1
        })
    );
    assert!(matches!(
        next_hop(&hop, 302, "302 Found", &Location::Missing),
        HopOutcome::Failed(_)
    ));
    assert!(matches!(
        next_hop(&hop, 302, "302 Found", &Location::NotText),
        HopOutcome::Failed(_)
    ));
    assert_eq!(next_hop(&hop, 200, "200 OK", &Location::Missing), HopOutcome::Collect);
    assert_eq!(
        next_hop(&hop, 404, "404 Not Found", &Location::Missing),
        HopOutcome::Failed("媒体下载失败（HTTP 404 Not Found）。可稍后重试。".to_string())
    );
    let last = Hop {
        url: "https://example.com/".to_string(),
        redirect_count: MAX_MEDIA_REDIRECTS,
    };
    assert!(matches!(
        next_hop(&last, 302, "302 Found", &Location::Text("/c".into())),
        HopOutcome::Failed(_)
    ));
    assert!(matches!(follow(&hop, Err("bad".to_string())), HopOutcome::Failed(_)));
    assert!(first_hop("not a url").is_err());
}

/// An address that a name resolves to, judged as one of the public internet or not.
fn resolved(octets: [u8; 4], port: u16) -> ResolvedAddress {
    let ip = IpAddress::V4(octets);
    ResolvedAddress {
        at: Endpoint { ip, port },
        shown: octets.map(|o| o.to_string()).join("."),
        allowed: is_public_download_ip(ip),
    }
}

fn step(phase: FetchPhase, event: FetchEvent) -> FetchPhase {
    fetch_media(MediaKind::Image, phase, event)
}

fn answer(status: u16, location: Location) -> FetchEvent {
    FetchEvent::Answered(Ok(Answer {
        status,
        status_text: format!("{status}"),
        location,
        content_type: Some("image/png".to_string()),
        content_length: Some(3),
    }))
}

fn failure(phase: FetchPhase) -> String {
    match phase {
        FetchPhase::Done(Err(message)) => message,
        _ => panic!("the fetch goes on"),
    }
}

#[test]
fn a_fetch_is_pinned_to_the_addresses_that_were_judged() {
    let phase = begin_fetch("https://media.example/a.png");
    let phase = step(phase, FetchEvent::Written(None));
    match &phase {
        FetchPhase::Resolving(_, target) => {
            assert_eq!((target.host.as_str(), target.port), ("media.example", 443));
        }
        _ => panic!("a name is resolved"),
    }
    let found = vec![
        resolved([9, 9, 9, 9], 443),
        resolved([8, 8, 8, 8], 443),
        resolved([9, 9, 9, 9], 443),
    ];
    let phase = step(phase, FetchEvent::Resolved(Ok(found)));
    match &phase {
        FetchPhase::Sending(_, _, Some(pinned)) => {
            let shown: Vec<IpAddress> = pinned.iter().map(|e| e.ip).collect();
            assert_eq!(shown, vec![IpAddress::V4([8, 8, 8, 8]), IpAddress::V4([9, 9, 9, 9])]);
        }
        _ => panic!("a request is sent"),
    }
    // A redirect is judged anew.
    let phase = step(phase, answer(302, Location::Text("https://other.example/b".into())));
    let phase = step(phase, FetchEvent::Written(None));
    let phase = step(phase, FetchEvent::Resolved(Ok(vec![resolved([8, 8, 4, 4], 443)])));
    let phase = step(phase, answer(200, Location::Missing));
    let phase = step(phase, FetchEvent::Chunk(Ok(Some(vec![1, 2]))));
    let phase = step(phase, FetchEvent::Chunk(Ok(Some(vec![3]))));
    match step(phase, FetchEvent::Chunk(Ok(None))) {
        FetchPhase::Done(Ok(bytes)) => assert_eq!(bytes, vec![1, 2, 3]),
        _ => panic!("the body is complete"),
    }
}

#[test]
fn one_forbidden_address_ends_a_fetch() {
    let start = || step(begin_fetch("https://media.example/a.png"), FetchEvent::Written(None));
    let mixed = vec![resolved([8, 8, 8, 8], 443), resolved([10, 0, 0, 1], 443)];
    assert_eq!(
        failure(step(start(), FetchEvent::Resolved(Ok(mixed)))),
        "拒绝下载内部/保留地址: media.example (resolved 10.0.0.1)"
    );
    assert_eq!(failure(step(start(), FetchEvent::Resolved(Err("no DNS".into())))), "no DNS");
    assert_eq!(
        failure(step(start(), FetchEvent::Expired("30s".into()))),
        "媒体下载超过总时限 30s（涵盖 DNS、连接、重定向和响应体）。"
    );
    let literal = step(
        begin_fetch("https://8.8.8.8/a.png"),
        FetchEvent::Written(Some(IpAddress::V4([8, 8, 8, 8]))),
    );
    let refused = FetchEvent::Asked("8.8.8.8".into(), false);
    assert_eq!(
        failure(step(literal, refused)),
        "拒绝下载内部/保留地址: 8.8.8.8 (resolved 8.8.8.8)"
    );
    let literal = step(
        begin_fetch("https://8.8.8.8/a.png"),
        FetchEvent::Written(Some(IpAddress::V4([8, 8, 8, 8]))),
    );
    let sending = step(literal, FetchEvent::Asked("8.8.8.8".into(), true));
    assert!(matches!(sending, FetchPhase::Sending(_, _, None)));
    let fault = FetchEvent::Answered(Err(SendFault::Failed("refused".into())));
    assert_eq!(failure(step(sending, fault)), "下载生成媒体失败: refused。可稍后重试。");
    assert!(failure(begin_fetch("not a url")).starts_with("无效的下载 URL: "));
}

#[test]
fn responses_are_checked_before_they_are_read() {
    let png = Some("image/png; charset=x".to_string());
    assert!(check_response(&png, Some(10), MediaKind::Image).is_ok());
    assert!(check_response(&png, Some(10), MediaKind::Audio).is_err());
    assert!(check_response(&png, Some(MAX_MEDIA_BYTES + 1), MediaKind::Image).is_err());
    assert!(check_response(&None, None, MediaKind::Image).is_err());
    let addresses = vec![resolved([8, 8, 8, 8], 443), resolved([10, 0, 0, 1], 443)];
    assert_eq!(
        check_addresses("h", &addresses).unwrap_err(),
        "拒绝下载内部/保留地址: h (resolved 10.0.0.1)"
    );
    assert!(check_addresses("h", &Vec::new()).is_ok());
}

#[test]
fn bodies_are_collected() {
    let mut body = BodyCollector::new();
    body.push(&vec![1, 2]).unwrap();
    body.push(&vec![3]).unwrap();
    assert_eq!(body.finish(), vec![1, 2, 3]);
    let mut large = BodyCollector::new();
    large.push(&vec![0; MAX_MEDIA_BYTES as usize]).unwrap();
    assert!(large.push(&vec![0]).is_err());
}
