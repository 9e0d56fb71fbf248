//! Trying mirrors in turn: looking up the latest release through the API
//! mirrors, and downloading the archive through the download mirrors.
use vstd::prelude::*;
use crate::names::result_view;
use crate::text::views;

verus! {

/// The API hosts, tried in this order.
pub open spec fn api_mirrors() -> Seq<Seq<char>> {
    seq!["https://api.github.com"@, "https://api.ghproxy.cc"@]
}

/// The prefixes put before a download address, tried in this order; the
/// empty prefix is the address itself.
pub open spec fn download_mirrors() -> Seq<Seq<char>> {
    seq![""@, "https://ghproxy.cc/"@, "https://gh-proxy.com/"@]
}

pub fn api_mirror_list() -> (r: Vec<String>)
    ensures
        views(r@) == api_mirrors(),
{
    let r = vec![String::from_str("https://api.github.com"), String::from_str("https://api.ghproxy.cc")];
    assert(views(r@) =~= api_mirrors());
    r
}

pub fn download_mirror_list() -> (r: Vec<String>)
    ensures
        views(r@) == download_mirrors(),
{
    let r = vec![
        String::from_str(""),
        String::from_str("https://ghproxy.cc/"),
        String::from_str("https://gh-proxy.com/"),
    ];
    assert(views(r@) =~= download_mirrors());
    r
}

/// An asset of a release.
pub struct ReleaseAsset {
    pub name: String,
    pub browser_download_url: String,
}

/// The name of the archive that a release carries.
pub const DOWNLOAD_ARCHIVE_ASSET: &'static str = "mods.zip";

pub const NO_ARCHIVE_IN_RELEASE: &'static str = "最新 release 中没有找到 mods.zip。";

/// The download address of the first asset named `mods.zip`.
pub open spec fn archive_choice(assets: Seq<ReleaseAsset>) -> Result<Seq<char>, Seq<char>>
    decreases assets.len(),
{
    if assets.len() == 0 {
        Err(NO_ARCHIVE_IN_RELEASE@)
    } else if assets[0].name@ == DOWNLOAD_ARCHIVE_ASSET@ {
        Ok(assets[0].browser_download_url@)
    } else {
        archive_choice(assets.drop_first())
    }
}

/// The download address of the first asset named `mods.zip`.
pub fn select_archive_asset(assets: &Vec<ReleaseAsset>) -> (r: Result<String, String>)
    ensures
        result_view(r) == archive_choice(assets@),
{
    let wanted = String::from_str(DOWNLOAD_ARCHIVE_ASSET);
    let n = assets.len();
    assert(assets@.skip(0) =~= assets@);
    for i in 0..n
        invariant
            n == assets.len(),
            wanted@ == DOWNLOAD_ARCHIVE_ASSET@,
            archive_choice(assets@) == archive_choice(assets@.skip(i as int)),
    {
        assert(assets@.skip(i as int)[0] == assets@[i as int]);
        assert(assets@.skip(i as int).drop_first() =~= assets@.skip(i + 1));
        if assets[i].name == wanted {
            return Ok(assets[i].browser_download_url.clone());
        }
    }
    assert(assets@.skip(n as int).len() == 0);
    Err(String::from_str(NO_ARCHIVE_IN_RELEASE))
}

/// Where a run through a list of mirrors stands: how many were tried, and
/// why the last one failed.
pub struct Failover {
    pub tried: usize,
    pub last_error: String,
}

impl Failover {
    pub fn new() -> (r: Failover)
        ensures
            r.tried == 0,
            r.last_error@ == Seq::<char>::empty(),
    {
        Failover { tried: 0, last_error: String::new() }
    }
}

/// The API address of the latest release of `owner/repo` at mirror `base`.
pub open spec fn latest_release_url(base: Seq<char>, owner: Seq<char>, repo: Seq<char>) -> Seq<char> {
    base + "/repos/"@ + owner + "/"@ + repo + "/releases/latest"@
}

/// What the API mirror answered.
pub enum ApiReply {
    /// The request could not be sent; the error's text.
    SendFailed(String),
    /// The response's status: its code and its text.
    Status { code: u16, text: String },
    /// The body of a successful response: the release's assets, or the text
    /// of the error that reading them gave.
    Body(Result<Vec<ReleaseAsset>, String>),
}

/// What to do next in a lookup.
pub enum LookupStep {
    /// Send a request to this address.
    Request(String),
    /// Read the body of the response.
    ReadBody,
    /// The lookup is over: the download address, or the error.
    Done(Result<String, String>),
}

pub const RELEASE_NOT_FOUND: &'static str = "没有找到最新 release。";
pub const RELEASE_PARSE_FAILED: &'static str = "解析 GitHub release 响应失败：";
pub const ALL_API_MIRRORS_FAILED: &'static str = "获取最新 release 失败（所有镜像均不可用）：";

/// A lookup of the latest release through the API mirrors.
pub struct ReleaseLookup {
    pub owner: String,
    pub repo: String,
    pub run: Failover,
}

/// `true` for the status codes 200 to 299 (`StatusCode::is_success`).
pub open spec fn is_success(code: u16) -> bool {
    200 <= code <= 299
}

/// The step that starts mirror number `tried`, or ends the run.
pub open spec fn lookup_next(owner: Seq<char>, repo: Seq<char>, tried: int, last_error: Seq<char>) -> LookupStepView {
    if tried < api_mirrors().len() {
        LookupStepView::Request(latest_release_url(api_mirrors()[tried], owner, repo))
    } else {
        LookupStepView::Done(Err(ALL_API_MIRRORS_FAILED@ + last_error))
    }
}

/// A lookup step as plain values.
pub ghost enum LookupStepView {
    Request(Seq<char>),
    ReadBody,
    Done(Result<Seq<char>, Seq<char>>),
}

pub open spec fn step_view(s: LookupStep) -> LookupStepView {
    match s {
        LookupStep::Request(u) => LookupStepView::Request(u@),
        LookupStep::ReadBody => LookupStepView::ReadBody,
        LookupStep::Done(r) => LookupStepView::Done(result_view(r)),
    }
}

/// The text recorded when mirror `base` could not be reached.
pub open spec fn send_failure(base: Seq<char>, error: Seq<char>) -> Seq<char> {
    base + " 请求失败："@ + error
}

/// The text recorded when mirror `base` answered with a failing status.
pub open spec fn status_failure(base: Seq<char>, status: Seq<char>) -> Seq<char> {
    base + " 返回 HTTP "@ + status + "。"@
}

impl ReleaseLookup {
    pub open spec fn wf(&self) -> bool {
        self.run.tried <= api_mirrors().len()
    }

    /// The mirror that the outstanding request went to.
    pub open spec fn current_mirror(&self) -> Seq<char> {
        api_mirrors()[self.run.tried as int]
    }

    fn next_step(&self) -> (r: LookupStep)
        requires
            self.wf(),
        ensures
            step_view(r) == lookup_next(self.owner@, self.repo@, self.run.tried as int, self.run.last_error@),
    {
        let mirrors = api_mirror_list();
        if self.run.tried < mirrors.len() {
            assert(views(mirrors@)[self.run.tried as int] == mirrors@[self.run.tried as int]@);
            let mut url = mirrors[self.run.tried].clone();
            url.append("/repos/");
            url.append(self.owner.as_str());
            url.append("/");
            url.append(self.repo.as_str());
            url.append("/releases/latest");
            LookupStep::Request(url)
        } else {
            let mut msg = String::from_str(ALL_API_MIRRORS_FAILED);
            msg.append(self.run.last_error.as_str());
            LookupStep::Done(Err(msg))
        }
    }

    /// Starts a lookup of the latest release of `owner/repo`: the first step
    /// is a request to the first API mirror.
    pub fn start(owner: String, repo: String) -> (r: (ReleaseLookup, LookupStep))
        ensures
            r.0.wf(),
            r.0.owner@ == owner@,
            r.0.repo@ == repo@,
            r.0.run.tried == 0,
            r.0.run.last_error@ == Seq::<char>::empty(),
            step_view(r.1) == lookup_next(owner@, repo@, 0, Seq::<char>::empty()),
    {
        let lookup = ReleaseLookup { owner, repo, run: Failover::new() };
        let step = lookup.next_step();
        (lookup, step)
    }

    /// The next step after the reply to the outstanding request to mirror
    /// number `tried`.
    pub fn on_reply(&mut self, reply: ApiReply) -> (r: LookupStep)
        requires
            old(self).wf(),
            old(self).run.tried < api_mirrors().len(),
        ensures
            final(self).wf(),
            final(self).owner@ == old(self).owner@,
            final(self).repo@ == old(self).repo@,
            match reply {
                ApiReply::SendFailed(e) => {
                    &&& final(self).run.tried == old(self).run.tried + 1
                    &&& final(self).run.last_error@ == send_failure(old(self).current_mirror(), e@)
                    &&& step_view(r) == lookup_next(old(self).owner@, old(self).repo@,
                        final(self).run.tried as int, final(self).run.last_error@)
                },
                ApiReply::Status { code, text } => if code == 404 {
                    &&& final(self).run == old(self).run
                    &&& step_view(r) == LookupStepView::Done(Err(RELEASE_NOT_FOUND@))
                } else if !is_success(code) {
                    &&& final(self).run.tried == old(self).run.tried + 1
                    &&& final(self).run.last_error@ == status_failure(old(self).current_mirror(), text@)
                    &&& step_view(r) == lookup_next(old(self).owner@, old(self).repo@,
                        final(self).run.tried as int, final(self).run.last_error@)
                } else {
                    &&& final(self).run == old(self).run
                    &&& step_view(r) == LookupStepView::ReadBody
                },
                ApiReply::Body(Ok(assets)) => {
                    &&& final(self).run == old(self).run
                    &&& step_view(r) == LookupStepView::Done(archive_choice(assets@))
                },
                ApiReply::Body(Err(e)) => {
                    &&& final(self).run == old(self).run
                    &&& step_view(r) == LookupStepView::Done(Err(RELEASE_PARSE_FAILED@ + e@))
                },
            },
    {
        let mirrors = api_mirror_list();
        let tried = self.run.tried;
        assert(views(mirrors@)[tried as int] == mirrors@[tried as int]@);
        match reply {
            ApiReply::SendFailed(e) => {
                let mut msg = mirrors[tried].clone();
                msg.append(" 请求失败：");
                msg.append(e.as_str());
                self.run = Failover { tried: tried + 1, last_error: msg };
                self.next_step()
            },
            ApiReply::Status { code, text } => {
                if code == 404 {
                    LookupStep::Done(Err(String::from_str(RELEASE_NOT_FOUND)))
                } else if !(200 <= code && code <= 299) {
                    let mut msg = mirrors[tried].clone();
                    msg.append(" 返回 HTTP ");
                    msg.append(text.as_str());
                    msg.append("。");
                    self.run = Failover { tried: tried + 1, last_error: msg };
                    self.next_step()
                } else {
                    LookupStep::ReadBody
                }
            },
            ApiReply::Body(Ok(assets)) => LookupStep::Done(select_archive_asset(&assets)),
            ApiReply::Body(Err(e)) => {
                let mut msg = String::from_str(RELEASE_PARSE_FAILED);
                msg.append(e.as_str());
                LookupStep::Done(Err(msg))
            },
        }
    }
}


/// What a download mirror answered.
pub enum DownloadReply {
    /// The request could not be sent; the error's text.
    SendFailed(String),
    /// The response's status: its code and its text.
    Status { code: u16, text: String },
}

/// What to do next in a download.
pub enum DownloadStep {
    /// Send a request to this address.
    Request(String),
    /// Stream the body of the response into the archive file.
    Stream,
    /// Every mirror failed; the message.
    Failed(String),
}

pub ghost enum DownloadStepView {
    Request(Seq<char>),
    Stream,
    Failed(Seq<char>),
}

pub open spec fn download_step_view(s: DownloadStep) -> DownloadStepView {
    match s {
        DownloadStep::Request(u) => DownloadStepView::Request(u@),
        DownloadStep::Stream => DownloadStepView::Stream,
        DownloadStep::Failed(e) => DownloadStepView::Failed(e@),
    }
}

pub const ALL_DOWNLOAD_MIRRORS_FAILED: &'static str = "下载 mods.zip 失败（所有镜像均不可用）：";
pub const DIRECT_SOURCE_LABEL: &'static str = "直连";

/// How a download mirror is named in messages.
pub open spec fn mirror_label(prefix: Seq<char>) -> Seq<char> {
    if prefix.len() == 0 {
        DIRECT_SOURCE_LABEL@
    } else {
        prefix
    }
}

/// The step that starts download mirror number `tried`, or ends the run.
pub open spec fn download_next(url: Seq<char>, tried: int, last_error: Seq<char>) -> DownloadStepView {
    if tried < download_mirrors().len() {
        DownloadStepView::Request(download_mirrors()[tried] + url)
    } else {
        DownloadStepView::Failed(ALL_DOWNLOAD_MIRRORS_FAILED@ + last_error)
    }
}

/// A download of the archive at an address through the download mirrors.
pub struct ArchiveDownload {
    pub url: String,
    pub run: Failover,
}

impl ArchiveDownload {
    pub open spec fn wf(&self) -> bool {
        self.run.tried <= download_mirrors().len()
    }

    pub open spec fn current_prefix(&self) -> Seq<char> {
        download_mirrors()[self.run.tried as int]
    }

    fn next_step(&self) -> (r: DownloadStep)
        requires
            self.wf(),
        ensures
            download_step_view(r) == download_next(self.url@, self.run.tried as int, self.run.last_error@),
    {
        let mirrors = download_mirror_list();
        if self.run.tried < mirrors.len() {
            assert(views(mirrors@)[self.run.tried as int] == mirrors@[self.run.tried as int]@);
            let mut url = mirrors[self.run.tried].clone();
            url.append(self.url.as_str());
            DownloadStep::Request(url)
        } else {
            let mut msg = String::from_str(ALL_DOWNLOAD_MIRRORS_FAILED);
            msg.append(self.run.last_error.as_str());
            DownloadStep::Failed(msg)
        }
    }

    /// Starts downloading `url`: the first step is a request through the
    /// first mirror, the address itself.
    pub fn start(url: String) -> (r: (ArchiveDownload, DownloadStep))
        ensures
            r.0.wf(),
            r.0.url@ == url@,
            r.0.run.tried == 0,
            r.0.run.last_error@ == Seq::<char>::empty(),
            download_step_view(r.1) == download_next(url@, 0, Seq::<char>::empty()),
    {
        let d = ArchiveDownload { url, run: Failover::new() };
        let step = d.next_step();
        (d, step)
    }

    /// The next step after the reply to the outstanding request.
    pub fn on_reply(&mut self, reply: DownloadReply) -> (r: DownloadStep)
        requires
            old(self).wf(),
            old(self).run.tried < download_mirrors().len(),
        ensures
            final(self).wf(),
            final(self).url@ == old(self).url@,
            match reply {
                DownloadReply::SendFailed(e) => {
                    &&& final(self).run.tried == old(self).run.tried + 1
                    &&& final(self).run.last_error@ == mirror_label(old(self).current_prefix())
                        + " 下载失败："@ + e@
                    &&& download_step_view(r) == download_next(old(self).url@,
                        final(self).run.tried as int, final(self).run.last_error@)
                },
                DownloadReply::Status { code, text } => if !is_success(code) {
                    &&& final(self).run.tried == old(self).run.tried + 1
                    &&& final(self).run.last_error@ == status_failure(
                        mirror_label(old(self).current_prefix()), text@)
                    &&& download_step_view(r) == download_next(old(self).url@,
                        final(self).run.tried as int, final(self).run.last_error@)
                } else {
                    &&& final(self).run == old(self).run
                    &&& download_step_view(r) == DownloadStepView::Stream
                },
            },
    {
        let mirrors = download_mirror_list();
        let tried = self.run.tried;
        assert(views(mirrors@)[tried as int] == mirrors@[tried as int]@);
        let prefix = &mirrors[tried];
        let mut label = if prefix.as_str().unicode_len() == 0 {
            String::from_str(DIRECT_SOURCE_LABEL)
        } else {
            prefix.clone()
        };
        match reply {
            DownloadReply::SendFailed(e) => {
                label.append(" 下载失败：");
                label.append(e.as_str());
                self.run = Failover { tried: tried + 1, last_error: label };
                self.next_step()
            },
            DownloadReply::Status { code, text } => {
                if !(200 <= code && code <= 299) {
                    label.append(" 返回 HTTP ");
                    label.append(text.as_str());
                    label.append("。");
                    self.run = Failover { tried: tried + 1, last_error: label };
                    self.next_step()
                } else {
                    DownloadStep::Stream
                }
            },
        }
    }
}

/// The value of a decimal numeral as `u64::from_str` reads it: an optional
/// `+`, then one or more ASCII digits.
pub open spec fn digits_value(s: Seq<char>) -> int
    decreases s.len(),
{
    if s.len() == 0 {
        0
    } else {
        digits_value(s.drop_last()) * 10 + (s.last() as int - '0' as int)
    }
}

pub open spec fn all_digits(s: Seq<char>) -> bool {
    forall|i: int| 0 <= i < s.len() ==> '0' <= #[trigger] s[i] <= '9'
}

/// `s.parse::<u64>().ok()`.
pub open spec fn parse_u64(s: Seq<char>) -> Option<u64> {
    let d = if s.len() > 0 && s[0] == '+' {
        s.drop_first()
    } else {
        s
    };
    if d.len() > 0 && all_digits(d) && digits_value(d) <= u64::MAX {
        Some(digits_value(d) as u64)
    } else {
        None
    }
}

/// The length that a `Content-Length` header announces, 0 where there is
/// no such header or it does not hold a number.
pub fn content_length(header: Option<&str>) -> (r: u64)
    ensures
        r == match header {
            Some(h) => match parse_u64(h@) {
                Some(v) => v,
                None => 0,
            },
            None => 0,
        },
{
    let h = match header {
        Some(h) => h,
        None => return 0,
    };
    let cs = crate::text::chars_of(h);
    let n = cs.len();
    let start: usize = if n > 0 && cs[0] == '+' {
        1
    } else {
        0
    };
    let ghost d = if h@.len() > 0 && h@[0] == '+' {
        h@.drop_first()
    } else {
        h@
    };
    assert(d =~= h@.skip(start as int));
    if start == n {
        return 0;
    }
    let mut value: u64 = 0;
    let mut i: usize = start;
    while i < n
        invariant
            start <= i <= n == cs.len(),
            header == Some(h),
            cs@ == h@,
            d == h@.skip(start as int),
            d == (if h@.len() > 0 && h@[0] == '+' {
                h@.drop_first()
            } else {
                h@
            }),
            all_digits(h@.subrange(start as int, i as int)),
            value as int == digits_value(h@.subrange(start as int, i as int)),
        decreases n - i,
    {
        let c = cs[i];
        let ghost prefix = h@.subrange(start as int, i as int);
        let ghost next = h@.subrange(start as int, i + 1);
        assert(next.drop_last() =~= prefix);
        if !('0' <= c && c <= '9') {
            assert(!all_digits(d)) by {
                assert(d[i - start] == c);
            }
            assert(parse_u64(h@) is None);
            return 0;
        }
        let digit = (c as u32 - '0' as u32) as u64;
        if value > (u64::MAX - digit) / 10 {
            proof {
                lemma_digits_grow(d, (i + 1 - start) as int);
                assert(d.take(i + 1 - start) =~= next);
                assert(digits_value(next) > u64::MAX) by (nonlinear_arith)
                    requires
                        digits_value(next) == value * 10 + digit,
                        value > (u64::MAX - digit) / 10,
                        digit <= 9,
                ;
                if all_digits(d) {
                    lemma_digits_mono(d, (i + 1 - start) as int);
                }
                assert(parse_u64(h@) is None);
            }
            return 0;
        }
        assert(value * 10 + digit <= u64::MAX) by (nonlinear_arith)
            requires
                value <= (u64::MAX - digit) / 10,
                digit <= 9,
        ;
        value = value * 10 + digit;
        i = i + 1;
    }
    assert(h@.subrange(start as int, n as int) =~= d);
    value
}

proof fn lemma_digits_grow(d: Seq<char>, k: int)
    requires
        0 < k <= d.len(),
    ensures
        digits_value(d.take(k)) == digits_value(d.take(k - 1)) * 10 + (d[k - 1] as int - '0' as int),
{
    assert(d.take(k).drop_last() =~= d.take(k - 1));
}

proof fn lemma_digits_mono(d: Seq<char>, k: int)
    requires
        0 <= k <= d.len(),
        all_digits(d),
    ensures
        digits_value(d.take(k)) <= digits_value(d),
    decreases d.len() - k,
{
    if k < d.len() {
        lemma_digits_mono(d, k + 1);
        lemma_digits_grow(d, k + 1);
        assert(digits_value(d.take(k)) >= 0) by {
            lemma_digits_nonneg(d.take(k));
        }
        assert('0' <= d[k] <= '9');
        assert(digits_value(d.take(k)) <= digits_value(d.take(k)) * 10);
    } else {
        assert(d.take(k) =~= d);
    }
}

proof fn lemma_digits_nonneg(d: Seq<char>)
    requires
        all_digits(d),
    ensures
        digits_value(d) >= 0,
    decreases d.len(),
{
    if d.len() > 0 {
        assert(all_digits(d.drop_last())) by {
            assert forall|i: int| 0 <= i < d.drop_last().len() implies '0' <= #[trigger] d.drop_last()[i] <= '9' by {
                assert(d.drop_last()[i] == d[i]);
            }
        }
        lemma_digits_nonneg(d.drop_last());
        assert('0' <= d.last() <= '9');
    }
}

} // verus!
