use sts2_mod_sync::mirrors::{
    content_length, select_archive_asset, ApiReply, ArchiveDownload, DownloadReply, DownloadStep,
    LookupStep, ReleaseAsset, ReleaseLookup,
};
use sts2_mod_sync::repo::{parse_repository_url, repository_from_url, resolve_download_url_inner, DownloadSource, ParsedUrl};

fn pair(a: &str, b: &str) -> Result<(String, String), String> {
    Ok((a.to_string(), b.to_string()))
}

#[test]
fn github_repository_addresses() {
    assert_eq!(parse_repository_url("https://github.com/owner/repo"), pair("owner", "repo"));
    assert_eq!(parse_repository_url("  http://github.com/owner/repo/releases  "), pair("owner", "repo"));
    assert_eq!(parse_repository_url("https://github.com//owner//repo/"), pair("owner", "repo"));
    assert_eq!(parse_repository_url("HTTPS://GitHub.com/o/r"), pair("o", "r"));
}

#[test]
fn other_addresses_are_refused() {
    let not_github = Err("仓库地址必须是 GitHub 链接。".to_string());
    let bad = Err("仓库地址格式不正确。".to_string());
    assert_eq!(parse_repository_url("ftp://github.com/a/b"), not_github);
    assert_eq!(parse_repository_url("https://gitlab.com/a/b"), not_github);
    assert_eq!(parse_repository_url("https://github.com/a"), bad);
    assert_eq!(parse_repository_url("https://github.com/"), bad);
    assert_eq!(parse_repository_url("not a url"), bad);
    assert_eq!(parse_repository_url(""), bad);
}

#[test]
fn parsed_addresses_decide_alone() {
    let u = ParsedUrl { scheme: "https".to_string(), host: Some("github.com".to_string()), path: "/x/y/z".to_string() };
    assert_eq!(repository_from_url(&Some(u)), pair("x", "y"));
    let u = ParsedUrl { scheme: "https".to_string(), host: None, path: "/x/y".to_string() };
    assert_eq!(repository_from_url(&Some(u)), Err("仓库地址必须是 GitHub 链接。".to_string()));
    let u = ParsedUrl { scheme: "http".to_string(), host: Some("github.com".to_string()), path: "x/y".to_string() };
    assert_eq!(repository_from_url(&Some(u)), Err("仓库地址格式不正确。".to_string()));
    assert_eq!(repository_from_url(&None), Err("仓库地址格式不正确。".to_string()));
}

#[test]
fn sync_addresses_lead_to_a_source() {
    assert!(matches!(resolve_download_url_inner("   "), Err(e) if e == "同步地址不能为空。"));
    match resolve_download_url_inner(" https://example.com/mods.zip ") {
        Ok(DownloadSource::Direct(u)) => assert_eq!(u, "https://example.com/mods.zip"),
        _ => panic!("expected a direct download"),
    }
    match resolve_download_url_inner("https://github.com/o/r") {
        Ok(DownloadSource::LatestRelease { owner, repo }) => assert_eq!((owner.as_str(), repo.as_str()), ("o", "r")),
        _ => panic!("expected a release lookup"),
    }
    match resolve_download_url_inner("https://github.com/o") {
        Ok(DownloadSource::Direct(u)) => assert_eq!(u, "https://github.com/o"),
        _ => panic!("expected a direct download"),
    }
}

fn asset(name: &str, url: &str) -> ReleaseAsset {
    ReleaseAsset { name: name.to_string(), browser_download_url: url.to_string() }
}

#[test]
fn the_first_mods_zip_asset_is_chosen() {
    let assets = vec![asset("a.zip", "u1"), asset("mods.zip", "u2"), asset("mods.zip", "u3")];
    assert_eq!(select_archive_asset(&assets), Ok("u2".to_string()));
    assert_eq!(
        select_archive_asset(&vec![asset("Mods.zip", "u")]),
        Err("最新 release 中没有找到 mods.zip。".to_string())
    );
}

fn request(step: &LookupStep) -> &str {
    match step {
        LookupStep::Request(u) => u,
        _ => panic!("expected a request"),
    }
}

#[test]
fn lookup_tries_the_next_mirror_after_a_failure() {
    let (mut l, step) = ReleaseLookup::start("o".to_string(), "r".to_string());
    assert_eq!(request(&step), "https://api.github.com/repos/o/r/releases/latest");
    let step = l.on_reply(ApiReply::SendFailed("timeout".to_string()));
    assert_eq!(request(&step), "https://api.ghproxy.cc/repos/o/r/releases/latest");
    let step = l.on_reply(ApiReply::Status { code: 500, text: "500 Internal Server Error".to_string() });
    match step {
        LookupStep::Done(Err(e)) => assert_eq!(
            e,
            "获取最新 release 失败（所有镜像均不可用）：https://api.ghproxy.cc 返回 HTTP 500 Internal Server Error。"
        ),
        _ => panic!("expected the end"),
    }
}

#[test]
fn lookup_stops_at_not_found() {
    let (mut l, _) = ReleaseLookup::start("o".to_string(), "r".to_string());
    match l.on_reply(ApiReply::Status { code: 404, text: "404 Not Found".to_string() }) {
        LookupStep::Done(Err(e)) => assert_eq!(e, "没有找到最新 release。"),
        _ => panic!("expected the end"),
    }
}

#[test]
fn lookup_reads_the_release_after_success() {
    let (mut l, _) = ReleaseLookup::start("o".to_string(), "r".to_string());
    assert!(matches!(l.on_reply(ApiReply::Status { code: 200, text: "200 OK".to_string() }), LookupStep::ReadBody));
    match l.on_reply(ApiReply::Body(Ok(vec![asset("x", "1"), asset("mods.zip", "2")]))) {
        LookupStep::Done(Ok(u)) => assert_eq!(u, "2"),
        _ => panic!("expected the address"),
    }
    let (mut l, _) = ReleaseLookup::start("o".to_string(), "r".to_string());
    match l.on_reply(ApiReply::Body(Err("bad json".to_string()))) {
        LookupStep::Done(Err(e)) => assert_eq!(e, "解析 GitHub release 响应失败：bad json"),
        _ => panic!("expected the end"),
    }
}

#[test]
fn download_goes_through_each_mirror_once() {
    let (mut d, step) = ArchiveDownload::start("https://x/m.zip".to_string());
    assert!(matches!(step, DownloadStep::Request(ref u) if u == "https://x/m.zip"));
    let step = d.on_reply(DownloadReply::SendFailed("e1".to_string()));
    assert!(matches!(step, DownloadStep::Request(ref u) if u == "https://ghproxy.cc/https://x/m.zip"));
    let step = d.on_reply(DownloadReply::Status { code: 502, text: "502 Bad Gateway".to_string() });
    assert!(matches!(step, DownloadStep::Request(ref u) if u == "https://gh-proxy.com/https://x/m.zip"));
    let step = d.on_reply(DownloadReply::SendFailed("e2".to_string()));
    match step {
        DownloadStep::Failed(e) => assert_eq!(e, "下载 mods.zip 失败（所有镜像均不可用）：https://gh-proxy.com/ 下载失败：e2"),
        _ => panic!("expected failure"),
    }
}

#[test]
fn direct_download_failures_are_labelled() {
    let (mut d, _) = ArchiveDownload::start("u".to_string());
    d.on_reply(DownloadReply::Status { code: 403, text: "403 Forbidden".to_string() });
    assert_eq!(d.run.last_error, "直连 返回 HTTP 403 Forbidden。");
    assert!(matches!(d.on_reply(DownloadReply::Status { code: 204, text: "204".to_string() }), DownloadStep::Stream));
}

#[test]
fn content_length_is_read_like_u64_parse() {
    assert_eq!(content_length(Some("123")), 123);
    assert_eq!(content_length(Some("+5")), 5);
    assert_eq!(content_length(Some("18446744073709551615")), u64::MAX);
    for bad in ["", "+", "-1", "12a", "18446744073709551616", " 1"] {
        assert_eq!(content_length(Some(bad)), 0, "{:?}", bad);
        assert!(bad.parse::<u64>().is_err());
    }
    assert_eq!(content_length(None), 0);
}
