//! Sync addresses: recognising a GitHub repository address and choosing
//! what to download for an address.
use vstd::prelude::*;
use crate::steam::opt_view;
use crate::text::{chars_of, split_at_separators, split_seq, trim, trimmed, views, Separator};

verus! {

/// The parts of a parsed URL that the logic reads.
pub struct ParsedUrl {
    /// The scheme, lower-cased, without `:`.
    pub scheme: String,
    /// The host, where the URL has one.
    pub host: Option<String>,
    /// The path, percent-encoded, without query or fragment.
    pub path: String,
}

/// What `url::Url::parse` (re-exported as `reqwest::Url`) makes of `input`:
/// `None` where it finds no absolute URL, else the scheme, host and path.
pub uninterp spec fn url_parts(input: Seq<char>) -> Option<(Seq<char>, Option<Seq<char>>, Seq<char>)>;

/// The parts that `url_parts` names, of a parsed URL.
pub open spec fn parsed_view(u: ParsedUrl) -> (Seq<char>, Option<Seq<char>>, Seq<char>) {
    (u.scheme@, opt_view(u.host), u.path@)
}

/// Calls `reqwest::Url::parse` (that is `url::Url::parse`) and keeps the
/// scheme (`Url::scheme`), host (`Url::host_str`) and path (`Url::path`).
/// The contract claims only that the outcome is the one that `url_parts`
/// names for the input; URL parsing itself is not stated here.
#[verifier::external_body]
fn parse_url(input: &str) -> (r: Option<ParsedUrl>)
    ensures
        match r {
            Some(u) => url_parts(input@) == Some(parsed_view(u)),
            None => url_parts(input@) is None,
        },
{
    match reqwest::Url::parse(input) {
        Ok(u) => Some(
            ParsedUrl {
                scheme: u.scheme().to_string(),
                host: u.host_str().map(|h| h.to_string()),
                path: u.path().to_string(),
            },
        ),
        Err(_) => None,
    }
}

/// The message for an address that is no URL of a repository.
pub const BAD_REPOSITORY_URL: &'static str = "仓库地址格式不正确。";

/// The message for an address that is not on GitHub.
pub const NOT_GITHUB_URL: &'static str = "仓库地址必须是 GitHub 链接。";

/// The message for an empty sync address.
pub const EMPTY_SYNC_URL: &'static str = "同步地址不能为空。";

/// The non-empty pieces of `pieces`, in order.
pub open spec fn non_empty_pieces(pieces: Seq<Seq<char>>) -> Seq<Seq<char>>
    decreases pieces.len(),
{
    if pieces.len() == 0 {
        Seq::<Seq<char>>::empty()
    } else {
        let rest = non_empty_pieces(pieces.drop_last());
        if pieces.last().len() > 0 {
            rest.push(pieces.last())
        } else {
            rest
        }
    }
}

/// `Url::path_segments`, without the empty ones: `None` unless the path
/// begins with `/`.
pub open spec fn path_segments(path: Seq<char>) -> Option<Seq<Seq<char>>> {
    if path.len() > 0 && path[0] == '/' {
        Some(non_empty_pieces(split_seq(path.drop_first(), Separator::Char('/'))))
    } else {
        None
    }
}

/// The owner and repository that a parsed address names.
pub open spec fn repository_of(parts: Option<(Seq<char>, Option<Seq<char>>, Seq<char>)>) -> Result<
    (Seq<char>, Seq<char>),
    Seq<char>,
> {
    match parts {
        None => Err(BAD_REPOSITORY_URL@),
        Some((scheme, host, path)) => if scheme != "http"@ && scheme != "https"@ {
            Err(NOT_GITHUB_URL@)
        } else if host != Some("github.com"@) {
            Err(NOT_GITHUB_URL@)
        } else {
            match path_segments(path) {
                None => Err(BAD_REPOSITORY_URL@),
                Some(segs) => if segs.len() < 2 {
                    Err(BAD_REPOSITORY_URL@)
                } else {
                    Ok((segs[0], segs[1]))
                },
            }
        },
    }
}

pub open spec fn pair_result_view(r: Result<(String, String), String>) -> Result<
    (Seq<char>, Seq<char>),
    Seq<char>,
> {
    match r {
        Ok((a, b)) => Ok((a@, b@)),
        Err(e) => Err(e@),
    }
}

fn non_empty_strings(v: Vec<String>) -> (r: Vec<String>)
    ensures
        views(r@) == non_empty_pieces(views(v@)),
{
    let mut out: Vec<String> = Vec::new();
    let n = v.len();
    assert(views(v@).take(0) =~= Seq::<Seq<char>>::empty());
    for i in 0..n
        invariant
            n == v.len(),
            views(out@) == non_empty_pieces(views(v@).take(i as int)),
    {
        proof {
            assert(views(v@).take(i + 1).drop_last() =~= views(v@).take(i as int));
            assert(views(v@).take(i + 1).last() == v@[i as int]@);
        }
        if v[i].as_str().unicode_len() > 0 {
            let ghost before = out@;
            out.push(v[i].clone());
            assert(views(out@) =~= views(before).push(v@[i as int]@));
        }
    }
    assert(views(v@).take(n as int) =~= views(v@));
    out
}

/// The owner and repository named by a parsed address (`None`: the address
/// did not parse as a URL).
pub fn repository_from_url(url: &Option<ParsedUrl>) -> (r: Result<(String, String), String>)
    ensures
        pair_result_view(r) == repository_of(
            match url {
                Some(u) => Some(parsed_view(*u)),
                None => None,
            },
        ),
{
    let u = match url {
        None => return Err(String::from_str(BAD_REPOSITORY_URL)),
        Some(u) => u,
    };
    let http = String::from_str("http");
    let https = String::from_str("https");
    if u.scheme != http && u.scheme != https {
        return Err(String::from_str(NOT_GITHUB_URL));
    }
    let github = String::from_str("github.com");
    match &u.host {
        Some(h) => {
            if *h != github {
                return Err(String::from_str(NOT_GITHUB_URL));
            }
        },
        None => return Err(String::from_str(NOT_GITHUB_URL)),
    }
    let cs = chars_of(u.path.as_str());
    let n = cs.len();
    if n == 0 || cs[0] != '/' {
        return Err(String::from_str(BAD_REPOSITORY_URL));
    }
    let rest = u.path.as_str().substring_char(1, n);
    assert(rest@ =~= u.path@.drop_first());
    let pieces = split_at_separators(rest, Separator::Char('/'));
    let segs = non_empty_strings(pieces);
    if segs.len() < 2 {
        return Err(String::from_str(BAD_REPOSITORY_URL));
    }
    assert(views(segs@)[0] == segs@[0]@ && views(segs@)[1] == segs@[1]@);
    Ok((segs[0].clone(), segs[1].clone()))
}

/// The owner and repository of a GitHub repository address.
pub fn parse_repository_url(repository_url: &str) -> (r: Result<(String, String), String>)
    ensures
        pair_result_view(r) == repository_of(url_parts(trimmed(repository_url@))),
{
    let t = trim(repository_url);
    let parsed = parse_url(t.as_str());
    repository_from_url(&parsed)
}

proof fn lemma_non_empty_pieces(pieces: Seq<Seq<char>>)
    ensures
        forall|k: int|
            0 <= k < non_empty_pieces(pieces).len() ==> (#[trigger] non_empty_pieces(pieces)[k]).len()
                > 0 && exists|j: int| 0 <= j < pieces.len() && pieces[j] == non_empty_pieces(pieces)[k],
    decreases pieces.len(),
{
    if pieces.len() > 0 {
        lemma_non_empty_pieces(pieces.drop_last());
        let rest = non_empty_pieces(pieces.drop_last());
        let r = non_empty_pieces(pieces);
        assert forall|k: int| 0 <= k < r.len() implies (#[trigger] r[k]).len() > 0 && exists|j: int|
            0 <= j < pieces.len() && pieces[j] == r[k] by {
            if k < rest.len() {
                assert(r[k] == rest[k]);
                let j = choose|j: int| 0 <= j < pieces.drop_last().len() && pieces.drop_last()[j] == rest[k];
                assert(pieces[j] == rest[k]);
            } else {
                assert(r[k] == pieces.last());
                assert(pieces[pieces.len() - 1] == r[k]);
            }
        }
    }
}

/// A repository address names an owner and a repository on GitHub, each a
/// non-empty path segment without `/`.
pub proof fn lemma_repository_parts(parts: Option<(Seq<char>, Option<Seq<char>>, Seq<char>)>)
    ensures
        repository_of(parts) matches Ok((owner, repo)) ==> {
            &&& parts matches Some((scheme, host, _)) && (scheme == "http"@ || scheme == "https"@)
                && host == Some("github.com"@)
            &&& owner.len() > 0 && repo.len() > 0
            &&& !owner.contains('/') && !repo.contains('/')
        },
{
    if let Some((scheme, host, path)) = parts {
        if path.len() > 0 && path[0] == '/' {
            let pieces = split_seq(path.drop_first(), Separator::Char('/'));
            crate::text::lemma_split_pieces_plain(path.drop_first(), Separator::Char('/'));
            lemma_non_empty_pieces(pieces);
            let segs = non_empty_pieces(pieces);
            if segs.len() >= 2 {
                assert forall|k: int| 0 <= k < 2 implies !(#[trigger] segs[k]).contains('/') by {
                    let j = choose|j: int| 0 <= j < pieces.len() && pieces[j] == segs[k];
                    if segs[k].contains('/') {
                        let i = choose|i: int| 0 <= i < segs[k].len() && segs[k][i] == '/';
                        assert(pieces[j][i] == '/');
                    }
                }
            }
        }
    }
}

/// Where a sync address leads.
pub enum DownloadSource {
    /// The address itself is the archive to download.
    Direct(String),
    /// The archive is the `mods.zip` of the latest release of this repository.
    LatestRelease { owner: String, repo: String },
}

/// The view of a download source: `Ok(address)` for a direct download,
/// `Err((owner, repo))` for a repository's latest release.
pub open spec fn source_view(s: DownloadSource) -> Result<Seq<char>, (Seq<char>, Seq<char>)> {
    match s {
        DownloadSource::Direct(u) => Ok(u@),
        DownloadSource::LatestRelease { owner, repo } => Err((owner@, repo@)),
    }
}

/// What a sync address leads to: nothing for an empty address, the latest
/// release for an address of a GitHub repository, else the address itself.
pub open spec fn download_source_of(url: Seq<char>) -> Result<Result<Seq<char>, (Seq<char>, Seq<char>)>, Seq<char>> {
    let t = trimmed(url);
    if t.len() == 0 {
        Err(EMPTY_SYNC_URL@)
    } else {
        match repository_of(url_parts(trimmed(t))) {
            Ok((owner, repo)) => Ok(Err((owner, repo))),
            Err(_) => Ok(Ok(t)),
        }
    }
}

/// Decides where the archive of sync address `url` comes from.
pub fn resolve_download_url_inner(url: &str) -> (r: Result<DownloadSource, String>)
    ensures
        match r {
            Ok(s) => download_source_of(url@) == Ok::<
                Result<Seq<char>, (Seq<char>, Seq<char>)>,
                Seq<char>,
            >(source_view(s)),
            Err(e) => download_source_of(url@) == Err::<
                Result<Seq<char>, (Seq<char>, Seq<char>)>,
                Seq<char>,
            >(e@),
        },
{
    let t = trim(url);
    if t.as_str().unicode_len() == 0 {
        return Err(String::from_str(EMPTY_SYNC_URL));
    }
    match parse_repository_url(t.as_str()) {
        Ok((owner, repo)) => Ok(DownloadSource::LatestRelease { owner, repo }),
        Err(_) => Ok(DownloadSource::Direct(t)),
    }
}


/// An empty address (after trimming) is refused; an address of a GitHub
/// repository leads to its latest release; any other address is
/// downloaded as it is, trimmed.
pub proof fn lemma_download_source(url: Seq<char>)
    ensures
        download_source_of(url) is Err <==> trimmed(url).len() == 0,
        download_source_of(url) matches Ok(Ok(u)) ==> u == trimmed(url) && u.len() > 0
            && repository_of(url_parts(trimmed(url))) is Err,
        download_source_of(url) matches Ok(Err((owner, repo))) ==> repository_of(
            url_parts(trimmed(url)),
        ) == Ok::<(Seq<char>, Seq<char>), Seq<char>>((owner, repo)),
{
    crate::text::lemma_trimmed_idempotent(url);
}

} // verus!
