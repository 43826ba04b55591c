//! The state of a crawl and the decisions that the crawl loop takes on it.
use vstd::prelude::*;
use std::collections::VecDeque;
use crate::downloader::{DownloadResult, DownloadResultView};
use crate::errors::TorDownloaderError;
use crate::parser::{
    after_last, distinct_urls, has_url, lowercase, views, ParsedUrl, ParsedUrlView, UrlType,
};
use crate::text::{contains, contains_str, owned, str_eq};
use crate::urls::{url_parse, UrlParts, UrlView};

verus! {

pub open spec fn strs(v: Seq<String>) -> Seq<Seq<char>> {
    v.map_values(|s: String| s@)
}

/// No element occurs twice.
pub open spec fn no_dup(s: Seq<Seq<char>>) -> bool {
    forall|i: int, j: int| 0 <= i < j < s.len() ==> s[i] != s[j]
}

/// `s` with `x` added unless it is already there.
pub open spec fn set_insert(s: Seq<Seq<char>>, x: Seq<char>) -> Seq<Seq<char>> {
    if s.contains(x) {
        s
    } else {
        s.push(x)
    }
}

/// What the crawl has seen, waits for and has done.
#[derive(Debug)]
pub struct CrawlState {
    pub visited_urls: Vec<String>,
    pub pending_urls: VecDeque<ParsedUrl>,
    pub failed_urls: Vec<String>,
    pub download_results: Vec<DownloadResult>,
    pub total_found: usize,
    pub total_processed: usize,
}

impl Default for CrawlState {
    fn default() -> (s: Self)
        ensures
            s.visited() == Seq::<Seq<char>>::empty(),
            s.pending() == Seq::<ParsedUrlView>::empty(),
            s.failed() == Seq::<Seq<char>>::empty(),
            s.download_results@ == Seq::<DownloadResult>::empty(),
            s.total_found == 0,
            s.total_processed == 0,
            s.wf(),
    {
        let s = CrawlState {
            visited_urls: Vec::new(),
            pending_urls: VecDeque::new(),
            failed_urls: Vec::new(),
            download_results: Vec::new(),
            total_found: 0,
            total_processed: 0,
        };
        assert(s.visited() =~= Seq::<Seq<char>>::empty());
        assert(s.failed() =~= Seq::<Seq<char>>::empty());
        assert(s.pending() =~= Seq::<ParsedUrlView>::empty());
        s
    }
}

fn contains_string(v: &Vec<String>, s: &str) -> (b: bool)
    ensures
        b == strs(v@).contains(s@),
{
    let mut i: usize = 0;
    while i < v.len()
        invariant
            i <= v.len(),
            forall|k: int| 0 <= k < i ==> v@[k]@ != s@,
        decreases v.len() - i,
    {
        if str_eq(v[i].as_str(), s) {
            assert(strs(v@)[i as int] == s@);
            return true;
        }
        i = i + 1;
    }
    assert forall|k: int| 0 <= k < strs(v@).len() implies strs(v@)[k] != s@ by {
        assert(strs(v@)[k] == v@[k]@);
    }
    false
}

fn pending_has_url(q: &VecDeque<ParsedUrl>, url: &str) -> (b: bool)
    ensures
        b == has_url(views(q@), url@),
{
    let mut i: usize = 0;
    while i < q.len()
        invariant
            i <= q@.len(),
            forall|k: int| 0 <= k < i ==> q@[k].url@ != url@,
        decreases q@.len() - i,
    {
        if str_eq(q[i].url.as_str(), url) {
            assert(views(q@)[i as int].url == url@);
            return true;
        }
        i = i + 1;
    }
    assert forall|k: int| 0 <= k < views(q@).len() implies (#[trigger] views(q@)[k]).url != url@ by {
        assert(views(q@)[k] == q@[k]@);
    }
    false
}

/// Whether the batch takes a pending URL: it is neither visited nor failed and
/// within the depth limit (0 means no limit).
pub open spec fn admissible(
    visited: Seq<Seq<char>>,
    failed: Seq<Seq<char>>,
    max_depth: nat,
    p: ParsedUrlView,
) -> bool {
    !visited.contains(p.url) && !failed.contains(p.url) && (max_depth == 0 || p.depth <= max_depth)
}

/// The admissible elements of `taken`, in order.
pub open spec fn batch_of(
    taken: Seq<ParsedUrlView>,
    visited: Seq<Seq<char>>,
    failed: Seq<Seq<char>>,
    max_depth: nat,
) -> Seq<ParsedUrlView>
    decreases taken.len(),
{
    if taken.len() == 0 {
        seq![]
    } else {
        let prev = batch_of(taken.drop_last(), visited, failed, max_depth);
        if admissible(visited, failed, max_depth, taken.last()) {
            prev.push(taken.last())
        } else {
            prev
        }
    }
}

/// The pending queue after the URLs of `urls` are offered to it in order: each
/// is appended unless it is visited, failed or already pending.
pub open spec fn queue_after(
    pending: Seq<ParsedUrlView>,
    visited: Seq<Seq<char>>,
    failed: Seq<Seq<char>>,
    urls: Seq<ParsedUrlView>,
) -> Seq<ParsedUrlView>
    decreases urls.len(),
{
    if urls.len() == 0 {
        pending
    } else {
        let q = queue_after(pending, visited, failed, urls.drop_last());
        let u = urls.last();
        if visited.contains(u.url) || failed.contains(u.url) || has_url(q, u.url) {
            q
        } else {
            q.push(u)
        }
    }
}

/// The smaller of two numbers.
pub open spec fn min(a: nat, b: nat) -> nat {
    if a < b {
        a
    } else {
        b
    }
}

impl CrawlState {
    pub open spec fn visited(&self) -> Seq<Seq<char>> {
        strs(self.visited_urls@)
    }

    pub open spec fn failed(&self) -> Seq<Seq<char>> {
        strs(self.failed_urls@)
    }

    pub open spec fn pending(&self) -> Seq<ParsedUrlView> {
        views(self.pending_urls@)
    }

    /// Visited and failed URLs are sets, and no URL waits twice.
    pub open spec fn wf(&self) -> bool {
        &&& no_dup(self.visited())
        &&& no_dup(self.failed())
        &&& distinct_urls(self.pending())
    }

    /// Queues the start URL of the crawl (a page at depth 0) and counts it as
    /// the one URL found so far.
    pub fn start(&mut self, url: &str)
        ensures
            final(self).pending() == old(self).pending().push(
                ParsedUrlView { url: url@, url_type: UrlType::Page, depth: 0 },
            ),
            final(self).total_found == 1,
            final(self).visited() == old(self).visited(),
            final(self).failed() == old(self).failed(),
            final(self).download_results@ == old(self).download_results@,
            final(self).total_processed == old(self).total_processed,
            old(self).wf() && old(self).pending().len() == 0 ==> final(self).wf(),
    {
        let p = ParsedUrl { url: owned(url), url_type: UrlType::Page, depth: 0 };
        let ghost pv = p@;
        self.pending_urls.push_back(p);
        assert(self.pending() =~= old(self).pending().push(pv));
        self.total_found = 1;
    }

    /// Takes up to `max_concurrent` URLs from the front of the queue and keeps
    /// those that are neither visited nor failed and within the depth limit.
    pub fn next_batch(&mut self, max_concurrent: usize, max_depth: usize) -> (batch: Vec<ParsedUrl>)
        ensures
            ({
                let k = min(max_concurrent as nat, old(self).pending().len());
                &&& final(self).pending() == old(self).pending().skip(k as int)
                &&& views(batch@) == batch_of(
                    old(self).pending().take(k as int),
                    old(self).visited(),
                    old(self).failed(),
                    max_depth as nat,
                )
            }),
            final(self).visited_urls == old(self).visited_urls,
            final(self).failed_urls == old(self).failed_urls,
            final(self).download_results == old(self).download_results,
            final(self).total_found == old(self).total_found,
            final(self).total_processed == old(self).total_processed,
            old(self).wf() ==> final(self).wf(),
    {
        let ghost p0 = self.pending();
        let mut batch: Vec<ParsedUrl> = Vec::new();
        let mut n: usize = 0;
        while n < max_concurrent
            invariant_except_break
                n <= max_concurrent,
                n <= p0.len(),
                self.pending() == p0.skip(n as int),
                views(batch@) == batch_of(p0.take(n as int), self.visited(), self.failed(), max_depth as nat),
                self.visited_urls == old(self).visited_urls,
                self.failed_urls == old(self).failed_urls,
                self.download_results == old(self).download_results,
                self.total_found == old(self).total_found,
                self.total_processed == old(self).total_processed,
                p0 == old(self).pending(),
            ensures
                ({
                    let k = min(max_concurrent as nat, p0.len());
                    &&& self.pending() == p0.skip(k as int)
                    &&& views(batch@) == batch_of(p0.take(k as int), self.visited(), self.failed(), max_depth as nat)
                }),
                self.visited_urls == old(self).visited_urls,
                self.failed_urls == old(self).failed_urls,
                self.download_results == old(self).download_results,
                self.total_found == old(self).total_found,
                self.total_processed == old(self).total_processed,
                p0 == old(self).pending(),
            decreases max_concurrent - n,
        {
            let ghost before = self.pending_urls@;
            match self.pending_urls.pop_front() {
                Some(url) => {
                    assert(before.len() > 0);
                    assert(p0.skip(n as int).len() == before.len());
                    assert(n < p0.len());
                    assert(views(before)[0] == url@);
                    assert(p0.take(n + 1).drop_last() =~= p0.take(n as int));
                    assert(p0.take(n + 1).last() == url@) by {
                        assert(p0.skip(n as int)[0] == p0[n as int]);
                    }
                    proof {
                        lemma_views_drop_front(before);
                        assert(self.pending_urls@ =~= before.subrange(1, before.len() as int));
                        assert(p0.skip(n as int).skip(1) =~= p0.skip(n + 1));
                    }
                    let visited = contains_string(&self.visited_urls, url.url.as_str());
                    let failed = contains_string(&self.failed_urls, url.url.as_str());
                    if !visited && !failed {
                        if max_depth == 0 || url.depth <= max_depth {
                            let ghost bv = views(batch@);
                            let ghost uv = url@;
                            batch.push(url);
                            assert(views(batch@) =~= bv.push(uv));
                        }
                    }
                    n = n + 1;
                },
                None => {
                    assert(p0.skip(n as int).len() == 0);
                    break ;
                },
            }
        }
        proof {
            let k = min(max_concurrent as nat, p0.len());
            assert(p0.skip(k as int) =~= self.pending() || true);
            if old(self).wf() {
                assert forall|i: int, j: int|
                    0 <= i < j < self.pending().len() implies (#[trigger] self.pending()[i]).url
                    != (#[trigger] self.pending()[j]).url by {
                    assert(self.pending()[i] == p0[i + k]);
                    assert(self.pending()[j] == p0[j + k]);
                }
            }
        }
        batch
    }

    /// Marks a URL as visited.
    pub fn mark_visited(&mut self, url: &str)
        ensures
            final(self).visited() == set_insert(old(self).visited(), url@),
            final(self).pending_urls@ == old(self).pending_urls@,
            final(self).failed_urls@ == old(self).failed_urls@,
            final(self).download_results@ == old(self).download_results@,
            final(self).total_found == old(self).total_found,
            final(self).total_processed == old(self).total_processed,
            old(self).wf() ==> final(self).wf(),
    {
        if !contains_string(&self.visited_urls, url) {
            let ghost v = self.visited();
            self.visited_urls.push(owned(url));
            assert(self.visited() =~= v.push(url@));
        }
    }

    /// Stores the result of a download and counts it as processed; a failed
    /// download's URL joins the failed URLs.
    pub fn record_result(&mut self, result: DownloadResult)
        requires
            old(self).total_processed < usize::MAX,
        ensures
            final(self).download_results@ == old(self).download_results@.push(result),
            final(self).total_processed == old(self).total_processed + 1,
            final(self).failed() == if result.success {
                old(self).failed()
            } else {
                set_insert(old(self).failed(), result.url@)
            },
            final(self).visited_urls@ == old(self).visited_urls@,
            final(self).pending_urls@ == old(self).pending_urls@,
            final(self).total_found == old(self).total_found,
            old(self).wf() ==> final(self).wf(),
    {
        let success = result.success;
        let url = owned(result.url.as_str());
        self.download_results.push(result);
        self.total_processed = self.total_processed + 1;
        if !success {
            if !contains_string(&self.failed_urls, url.as_str()) {
                let ghost f = self.failed();
                self.failed_urls.push(url);
                assert(self.failed() =~= f.push(result.url@));
            }
        }
    }

    /// Appends the URLs that are neither visited, failed nor pending to the
    /// queue, in order, and counts them as found; returns how many were added.
    pub fn queue_new_urls(&mut self, urls: Vec<ParsedUrl>) -> (added: usize)
        requires
            old(self).total_found + urls@.len() <= usize::MAX,
        ensures
            final(self).pending() == queue_after(
                old(self).pending(),
                old(self).visited(),
                old(self).failed(),
                views(urls@),
            ),
            added == final(self).pending().len() - old(self).pending().len(),
            final(self).total_found == old(self).total_found + added,
            final(self).visited_urls@ == old(self).visited_urls@,
            final(self).failed_urls@ == old(self).failed_urls@,
            final(self).download_results@ == old(self).download_results@,
            final(self).total_processed == old(self).total_processed,
            old(self).wf() ==> final(self).wf(),
    {
        let ghost uv = views(urls@);
        let ghost p0 = self.pending();
        let mut added: usize = 0;
        let mut urls = urls;
        let mut i: usize = 0;
        let n = urls.len();
        while urls.len() > 0
            invariant
                urls.len() + i == n,
                n == uv.len(),
                views(urls@) == uv.skip(i as int),
                self.pending() == queue_after(p0, self.visited(), self.failed(), uv.take(i as int)),
                added as int == self.pending().len() - p0.len(),
                added <= i,
                self.total_found == old(self).total_found,
                old(self).total_found + n <= usize::MAX,
                self.visited_urls@ == old(self).visited_urls@,
                self.failed_urls@ == old(self).failed_urls@,
                self.download_results@ == old(self).download_results@,
                self.total_processed == old(self).total_processed,
                p0 == old(self).pending(),
                old(self).wf() ==> self.wf(),
            decreases urls.len(),
        {
            let ghost before_u = views(urls@);
            let ghost old_urls = urls@;
            let u = urls.remove(0);
            assert(u@ == uv[i as int]) by {
                assert(before_u[0] == uv.skip(i as int)[0]);
            }
            proof {
                lemma_views_drop_front(old_urls);
                assert(urls@ =~= old_urls.subrange(1, old_urls.len() as int));
                assert(uv.skip(i as int).skip(1) =~= uv.skip(i + 1));
            }
            assert(uv.take(i + 1).drop_last() =~= uv.take(i as int));
            assert(uv.take(i + 1).last() == u@);
            let known = contains_string(&self.visited_urls, u.url.as_str()) || contains_string(
                &self.failed_urls,
                u.url.as_str(),
            ) || pending_has_url(&self.pending_urls, u.url.as_str());
            if !known {
                let ghost q = self.pending();
                let ghost w = u@;
                self.pending_urls.push_back(u);
                assert(self.pending() =~= q.push(w));
                added = added + 1;
                proof {
                    if old(self).wf() {
                        assert forall|a: int, b: int|
                            0 <= a < b < self.pending().len() implies (#[trigger] self.pending()[a]).url
                            != (#[trigger] self.pending()[b]).url by {
                            if b == self.pending().len() - 1 {
                                assert(q[a].url != w.url);
                            }
                        }
                    }
                }
            }
            i = i + 1;
        }
        assert(uv.take(n as int) =~= uv);
        self.total_found = self.total_found + added;
        added
    }
}

/// Whether a downloaded page is parsed for links: it downloaded, it is a page,
/// and its content type contains "text/html".
pub open spec fn should_parse_links_spec(p: ParsedUrlView, r: DownloadResultView) -> bool {
    &&& r.success
    &&& p.url_type == UrlType::Page
    &&& r.content_type matches Some(ct) && contains(ct, "text/html"@)
}

pub fn should_parse_links(parsed_url: &ParsedUrl, result: &DownloadResult) -> (b: bool)
    ensures
        b == should_parse_links_spec(parsed_url@, result@),
{
    if !result.success {
        return false;
    }
    if parsed_url.url_type != UrlType::Page {
        return false;
    }
    match &result.content_type {
        Some(ct) => contains_str(ct.as_str(), "text/html"),
        None => false,
    }
}

/// Links are followed from a download exactly when it succeeded, its URL was
/// found as a page, and its content type contains "text/html".
pub proof fn lemma_parse_links_when(p: ParsedUrlView, r: DownloadResultView)
    ensures
        should_parse_links_spec(p, r) <==> (r.success && p.url_type == UrlType::Page && (
        r.content_type matches Some(ct) && contains(ct, "text/html"@))),
{
}

/// The category of a successful result: "HTML Pages" when the content type
/// contains "text/html", else "Images" for "image/", else "CSS Files" for
/// "text/css", else "JavaScript Files" for "application/javascript" or
/// "text/javascript", else "PDF Documents" for "application/pdf".
pub proof fn lemma_content_type_categories(r: DownloadResultView, ct: Seq<char>)
    requires
        r.content_type == Some(ct),
    ensures
        contains(ct, "text/html"@) ==> result_category(r) == "HTML Pages"@,
        !contains(ct, "text/html"@) && contains(ct, "image/"@) ==> result_category(r) == "Images"@,
        !contains(ct, "text/html"@) && !contains(ct, "image/"@) && contains(ct, "text/css"@)
            ==> result_category(r) == "CSS Files"@,
        !contains(ct, "text/html"@) && !contains(ct, "image/"@) && !contains(ct, "text/css"@) && (
        contains(ct, "application/javascript"@) || contains(ct, "text/javascript"@))
            ==> result_category(r) == "JavaScript Files"@,
        !contains(ct, "text/html"@) && !contains(ct, "image/"@) && !contains(ct, "text/css"@)
            && !contains(ct, "application/javascript"@) && !contains(ct, "text/javascript"@)
            && contains(ct, "application/pdf"@) ==> result_category(r) == "PDF Documents"@,
{
}

/// A successful result whose content type decides nothing and whose URL's
/// lower-cased path ends with `.` and one of jpg, jpeg, png, gif, bmp, webp, svg, ico counts as "Images".
pub proof fn lemma_images_result_category(r: DownloadResultView, u: UrlView, stem: Seq<char>, ext: Seq<char>)
    requires
        ext == "jpg"@ || ext == "jpeg"@ || ext == "png"@ || ext == "gif"@ || ext == "bmp"@ || ext == "webp"@ || ext == "svg"@ || ext == "ico"@,
        r.content_type matches Some(ct) ==> content_type_category(ct) is None,
        url_parse(r.url) == Ok::<UrlView, Seq<char>>(u),
        lowercase(u.path) == stem.push('.') + ext,
    ensures
        result_category(r) == "Images"@,
{
    reveal_strlit("jpg");
    reveal_strlit("jpeg");
    reveal_strlit("png");
    reveal_strlit("gif");
    reveal_strlit("bmp");
    reveal_strlit("webp");
    reveal_strlit("svg");
    reveal_strlit("ico");
    reveal_strlit("css");
    reveal_strlit("js");
    reveal_strlit("pdf");
    reveal_strlit("zip");
    reveal_strlit("rar");
    reveal_strlit("7z");
    reveal_strlit("tar");
    reveal_strlit("gz");
    if ext == "jpg"@ {
        assert(ext.len() == 3 && ext[0] == 'j' && ext[1] == 'p' && ext[2] == 'g');
    }
    if ext == "jpeg"@ {
        assert(ext.len() == 4 && ext[0] == 'j' && ext[1] == 'p' && ext[2] == 'e' && ext[3] == 'g');
    }
    if ext == "png"@ {
        assert(ext.len() == 3 && ext[0] == 'p' && ext[1] == 'n' && ext[2] == 'g');
    }
    if ext == "gif"@ {
        assert(ext.len() == 3 && ext[0] == 'g' && ext[1] == 'i' && ext[2] == 'f');
    }
    if ext == "bmp"@ {
        assert(ext.len() == 3 && ext[0] == 'b' && ext[1] == 'm' && ext[2] == 'p');
    }
    if ext == "webp"@ {
        assert(ext.len() == 4 && ext[0] == 'w' && ext[1] == 'e' && ext[2] == 'b' && ext[3] == 'p');
    }
    if ext == "svg"@ {
        assert(ext.len() == 3 && ext[0] == 's' && ext[1] == 'v' && ext[2] == 'g');
    }
    if ext == "ico"@ {
        assert(ext.len() == 3 && ext[0] == 'i' && ext[1] == 'c' && ext[2] == 'o');
    }
    assert(!ext.contains('.'));
    crate::parser::lemma_after_last_suffix(stem, ext, '.');
}

/// A successful result whose content type decides nothing and whose URL's
/// lower-cased path ends with `.` and one of css counts as "CSS Files".
pub proof fn lemma_css_result_category(r: DownloadResultView, u: UrlView, stem: Seq<char>, ext: Seq<char>)
    requires
        ext == "css"@,
        r.content_type matches Some(ct) ==> content_type_category(ct) is None,
        url_parse(r.url) == Ok::<UrlView, Seq<char>>(u),
        lowercase(u.path) == stem.push('.') + ext,
    ensures
        result_category(r) == "CSS Files"@,
{
    reveal_strlit("jpg");
    reveal_strlit("jpeg");
    reveal_strlit("png");
    reveal_strlit("gif");
    reveal_strlit("bmp");
    reveal_strlit("webp");
    reveal_strlit("svg");
    reveal_strlit("ico");
    reveal_strlit("css");
    reveal_strlit("js");
    reveal_strlit("pdf");
    reveal_strlit("zip");
    reveal_strlit("rar");
    reveal_strlit("7z");
    reveal_strlit("tar");
    reveal_strlit("gz");
    if ext == "css"@ {
        assert(ext.len() == 3 && ext[0] == 'c' && ext[1] == 's' && ext[2] == 's');
    }
    assert(!ext.contains('.'));
    crate::parser::lemma_after_last_suffix(stem, ext, '.');
}

/// A successful result whose content type decides nothing and whose URL's
/// lower-cased path ends with `.` and one of js counts as "JavaScript Files".
pub proof fn lemma_javascript_result_category(r: DownloadResultView, u: UrlView, stem: Seq<char>, ext: Seq<char>)
    requires
        ext == "js"@,
        r.content_type matches Some(ct) ==> content_type_category(ct) is None,
        url_parse(r.url) == Ok::<UrlView, Seq<char>>(u),
        lowercase(u.path) == stem.push('.') + ext,
    ensures
        result_category(r) == "JavaScript Files"@,
{
    reveal_strlit("jpg");
    reveal_strlit("jpeg");
    reveal_strlit("png");
    reveal_strlit("gif");
    reveal_strlit("bmp");
    reveal_strlit("webp");
    reveal_strlit("svg");
    reveal_strlit("ico");
    reveal_strlit("css");
    reveal_strlit("js");
    reveal_strlit("pdf");
    reveal_strlit("zip");
    reveal_strlit("rar");
    reveal_strlit("7z");
    reveal_strlit("tar");
    reveal_strlit("gz");
    if ext == "js"@ {
        assert(ext.len() == 2 && ext[0] == 'j' && ext[1] == 's');
    }
    assert(!ext.contains('.'));
    crate::parser::lemma_after_last_suffix(stem, ext, '.');
}

/// A successful result whose content type decides nothing and whose URL's
/// lower-cased path ends with `.` and one of pdf counts as "PDF Documents".
pub proof fn lemma_pdf_result_category(r: DownloadResultView, u: UrlView, stem: Seq<char>, ext: Seq<char>)
    requires
        ext == "pdf"@,
        r.content_type matches Some(ct) ==> content_type_category(ct) is None,
        url_parse(r.url) == Ok::<UrlView, Seq<char>>(u),
        lowercase(u.path) == stem.push('.') + ext,
    ensures
        result_category(r) == "PDF Documents"@,
{
    reveal_strlit("jpg");
    reveal_strlit("jpeg");
    reveal_strlit("png");
    reveal_strlit("gif");
    reveal_strlit("bmp");
    reveal_strlit("webp");
    reveal_strlit("svg");
    reveal_strlit("ico");
    reveal_strlit("css");
    reveal_strlit("js");
    reveal_strlit("pdf");
    reveal_strlit("zip");
    reveal_strlit("rar");
    reveal_strlit("7z");
    reveal_strlit("tar");
    reveal_strlit("gz");
    if ext == "pdf"@ {
        assert(ext.len() == 3 && ext[0] == 'p' && ext[1] == 'd' && ext[2] == 'f');
    }
    assert(!ext.contains('.'));
    crate::parser::lemma_after_last_suffix(stem, ext, '.');
}

/// A successful result whose content type decides nothing and whose URL's
/// lower-cased path ends with `.` and one of zip, rar, 7z, tar, gz counts as "Archives".
pub proof fn lemma_archive_result_category(r: DownloadResultView, u: UrlView, stem: Seq<char>, ext: Seq<char>)
    requires
        ext == "zip"@ || ext == "rar"@ || ext == "7z"@ || ext == "tar"@ || ext == "gz"@,
        r.content_type matches Some(ct) ==> content_type_category(ct) is None,
        url_parse(r.url) == Ok::<UrlView, Seq<char>>(u),
        lowercase(u.path) == stem.push('.') + ext,
    ensures
        result_category(r) == "Archives"@,
{
    reveal_strlit("jpg");
    reveal_strlit("jpeg");
    reveal_strlit("png");
    reveal_strlit("gif");
    reveal_strlit("bmp");
    reveal_strlit("webp");
    reveal_strlit("svg");
    reveal_strlit("ico");
    reveal_strlit("css");
    reveal_strlit("js");
    reveal_strlit("pdf");
    reveal_strlit("zip");
    reveal_strlit("rar");
    reveal_strlit("7z");
    reveal_strlit("tar");
    reveal_strlit("gz");
    if ext == "zip"@ {
        assert(ext.len() == 3 && ext[0] == 'z' && ext[1] == 'i' && ext[2] == 'p');
    }
    if ext == "rar"@ {
        assert(ext.len() == 3 && ext[0] == 'r' && ext[1] == 'a' && ext[2] == 'r');
    }
    if ext == "7z"@ {
        assert(ext.len() == 2 && ext[0] == '7' && ext[1] == 'z');
    }
    if ext == "tar"@ {
        assert(ext.len() == 3 && ext[0] == 't' && ext[1] == 'a' && ext[2] == 'r');
    }
    if ext == "gz"@ {
        assert(ext.len() == 2 && ext[0] == 'g' && ext[1] == 'z');
    }
    assert(!ext.contains('.'));
    crate::parser::lemma_after_last_suffix(stem, ext, '.');
}

/// The category that a content type gives, if it decides one.
pub open spec fn content_type_category(ct: Seq<char>) -> Option<Seq<char>> {
    if contains(ct, "text/html"@) {
        Some("HTML Pages"@)
    } else if contains(ct, "image/"@) {
        Some("Images"@)
    } else if contains(ct, "text/css"@) {
        Some("CSS Files"@)
    } else if contains(ct, "application/javascript"@) || contains(ct, "text/javascript"@) {
        Some("JavaScript Files"@)
    } else if contains(ct, "application/pdf"@) {
        Some("PDF Documents"@)
    } else {
        None
    }
}

/// The category that the text after the last `.` of a lower-cased URL path gives.
pub open spec fn extension_category(ext: Seq<char>) -> Seq<char> {
    if ext == "jpg"@ || ext == "jpeg"@ || ext == "png"@ || ext == "gif"@ || ext == "bmp"@ || ext
        == "webp"@ || ext == "svg"@ || ext == "ico"@ {
        "Images"@
    } else if ext == "css"@ {
        "CSS Files"@
    } else if ext == "js"@ {
        "JavaScript Files"@
    } else if ext == "pdf"@ {
        "PDF Documents"@
    } else if ext == "zip"@ || ext == "rar"@ || ext == "7z"@ || ext == "tar"@ || ext == "gz"@ {
        "Archives"@
    } else {
        "Other Files"@
    }
}

/// Whether the category of a result is decided without parsing its URL, or its URL parses.
pub open spec fn categorizable(r: DownloadResultView) -> bool {
    (r.content_type matches Some(ct) && content_type_category(ct) is Some) || url_parse(r.url) is Ok
}

/// The category of a downloaded result for the final statistics: by content
/// type when that decides, else by the extension of the URL path.
pub open spec fn result_category(r: DownloadResultView) -> Seq<char> {
    match r.content_type {
        Some(ct) if content_type_category(ct) is Some => content_type_category(ct)->Some_0,
        _ => extension_category(after_last(lowercase(url_parse(r.url)->Ok_0.path), '.')),
    }
}

fn content_type_category_exec(ct: &str) -> (r: Option<&'static str>)
    ensures
        match content_type_category(ct@) {
            Some(c) => r matches Some(x) && x@ == c,
            None => r is None,
        },
{
    if contains_str(ct, "text/html") {
        Some("HTML Pages")
    } else if contains_str(ct, "image/") {
        Some("Images")
    } else if contains_str(ct, "text/css") {
        Some("CSS Files")
    } else if contains_str(ct, "application/javascript") || contains_str(ct, "text/javascript") {
        Some("JavaScript Files")
    } else if contains_str(ct, "application/pdf") {
        Some("PDF Documents")
    } else {
        None
    }
}

fn extension_category_exec(ext: &str) -> (r: &'static str)
    ensures
        r@ == extension_category(ext@),
{
    if str_eq(ext, "jpg") || str_eq(ext, "jpeg") || str_eq(ext, "png") || str_eq(ext, "gif")
        || str_eq(ext, "bmp") || str_eq(ext, "webp") || str_eq(ext, "svg") || str_eq(ext, "ico") {
        "Images"
    } else if str_eq(ext, "css") {
        "CSS Files"
    } else if str_eq(ext, "js") {
        "JavaScript Files"
    } else if str_eq(ext, "pdf") {
        "PDF Documents"
    } else if str_eq(ext, "zip") || str_eq(ext, "rar") || str_eq(ext, "7z") || str_eq(ext, "tar")
        || str_eq(ext, "gz") {
        "Archives"
    } else {
        "Other Files"
    }
}

/// The category of a downloaded result for the final statistics.
pub fn determine_result_type(result: &DownloadResult) -> (c: String)
    requires
        categorizable(result@),
    ensures
        c@ == result_category(result@),
{
    match &result.content_type {
        Some(ct) => {
            match content_type_category_exec(ct.as_str()) {
                Some(c) => {
                    return owned(c);
                },
                None => {},
            }
        },
        None => {},
    }
    match UrlParts::parse(result.url.as_str()) {
        Ok(u) => {
            let path = crate::parser::call_lowercase(u.path.as_str());
            let ext = crate::parser::after_last_exec(path.as_str(), '.');
            owned(extension_category_exec(ext.as_str()))
        },
        Err(_) => {
            assert(false);
            owned("Other Files")
        },
    }
}

/// Adds one to the count of `cat`, or starts it at one.
pub open spec fn count_one(counts: Seq<(Seq<char>, nat)>, cat: Seq<char>) -> Seq<(Seq<char>, nat)> {
    if exists|i: int| 0 <= i < counts.len() && (#[trigger] counts[i]).0 == cat {
        let i = choose|i: int| 0 <= i < counts.len() && (#[trigger] counts[i]).0 == cat;
        counts.update(i, (cat, counts[i].1 + 1))
    } else {
        counts.push((cat, 1))
    }
}

/// The number of successful results of each category, in the order in which
/// the categories first occur.
pub open spec fn category_counts(results: Seq<DownloadResultView>) -> Seq<(Seq<char>, nat)>
    decreases results.len(),
{
    if results.len() == 0 {
        seq![]
    } else {
        let prev = category_counts(results.drop_last());
        if results.last().success {
            count_one(prev, result_category(results.last()))
        } else {
            prev
        }
    }
}

pub open spec fn result_views(v: Seq<DownloadResult>) -> Seq<DownloadResultView> {
    v.map_values(|r: DownloadResult| r@)
}

pub open spec fn count_views(v: Seq<(String, usize)>) -> Seq<(Seq<char>, nat)> {
    v.map_values(|p: (String, usize)| (p.0@, p.1 as nat))
}

/// The number of successful downloads of each category, for the final
/// statistics; `None` when a successful result's category would need a URL
/// that does not parse.
pub fn count_result_types(results: &Vec<DownloadResult>) -> (r: Option<Vec<(String, usize)>>)
    ensures
        (forall|i: int|
            0 <= i < results@.len() && results@[i].success ==> categorizable(#[trigger] results@[i]@))
            ==> (r matches Some(c) && count_views(c@) == category_counts(result_views(results@))),
        !(forall|i: int|
            0 <= i < results@.len() && results@[i].success ==> categorizable(#[trigger] results@[i]@))
            ==> r is None,
{
    let ghost rv = result_views(results@);
    let mut counts: Vec<(String, usize)> = Vec::new();
    let mut i: usize = 0;
    while i < results.len()
        invariant
            i <= results.len(),
            rv == result_views(results@),
            count_views(counts@) == category_counts(rv.take(i as int)),
            forall|k: int| 0 <= k < counts@.len() ==> (#[trigger] counts@[k]).1 <= i,
            forall|a: int, b: int|
                0 <= a < b < counts@.len() ==> (#[trigger] counts@[a]).0@ != (#[trigger] counts@[b]).0@,
            forall|k: int| 0 <= k < i && results@[k].success ==> categorizable(#[trigger] results@[k]@),
        decreases results.len() - i,
    {
        assert(rv.take(i + 1).drop_last() =~= rv.take(i as int));
        assert(rv.take(i + 1).last() == results@[i as int]@);
        let result = &results[i];
        if result.success {
            let decided = match &result.content_type {
                Some(ct) => content_type_category_exec(ct.as_str()).is_some(),
                None => false,
            };
            if !decided {
                match UrlParts::parse(result.url.as_str()) {
                    Ok(_) => {},
                    Err(_) => {
                        return None;
                    },
                }
            }
            let cat = determine_result_type(result);
            let ghost cv = count_views(counts@);
            let mut j: usize = 0;
            while j < counts.len() && !str_eq(counts[j].0.as_str(), cat.as_str())
                invariant
                    j <= counts.len(),
                    cv == count_views(counts@),
                    forall|k: int| 0 <= k < j ==> counts@[k].0@ != cat@,
                    forall|a: int, b: int|
                        0 <= a < b < counts@.len() ==> (#[trigger] counts@[a]).0@ != (#[trigger] counts@[b]).0@,
                decreases counts.len() - j,
            {
                j = j + 1;
            }
            if j < counts.len() {
                let n = counts[j].1;
                assert(n <= i);
                assert(cv[j as int].0 == cat@);
                proof {
                    let w = choose|w: int| 0 <= w < cv.len() && (#[trigger] cv[w]).0 == cat@;
                    assert(cv[w].0 == counts@[w].0@);
                    assert(cv[j as int].0 == counts@[j as int].0@);
                    assert(w == j);
                }
                counts.set(j, (cat, n + 1));
                assert(count_views(counts@) =~= count_one(cv, result_category(result@)));
            } else {
                assert(!(exists|w: int| 0 <= w < cv.len() && (#[trigger] cv[w]).0 == cat@)) by {
                    assert forall|w: int| 0 <= w < cv.len() implies (#[trigger] cv[w]).0 != cat@ by {
                        assert(cv[w].0 == counts@[w].0@);
                    }
                }
                let ghost catv = cat@;
                counts.push((cat, 1));
                assert(count_views(counts@) =~= cv.push((catv, 1nat)));
            }
        }
        i = i + 1;
    }
    assert(rv.take(results.len() as int) =~= rv);
    Some(counts)
}

/// The bytes of a page downloaded for parsing, or the error that the crawl
/// reports when the download failed or brought no content.
pub fn html_content_of(result: &DownloadResult, content: Option<Vec<u8>>) -> (r: Result<
    Vec<u8>,
    TorDownloaderError,
>)
    ensures
        !result.success ==> (r matches Err(e) && e matches TorDownloaderError::Connection(m) && m@
            == "Failed to download HTML content for parsing"@),
        result.success && content is None ==> (r matches Err(e) && e matches TorDownloaderError::Connection(
            m,
        ) && m@ == "No content received"@),
        result.success && content is Some ==> r == Ok::<Vec<u8>, TorDownloaderError>(
            content->Some_0,
        ),
{
    if !result.success {
        return Err(TorDownloaderError::Connection(owned("Failed to download HTML content for parsing")));
    }
    match content {
        Some(c) => Ok(c),
        None => Err(TorDownloaderError::Connection(owned("No content received"))),
    }
}

/// How many rounds in a row the crawl loop may find no URL to process before
/// it stops.
pub const MAX_EMPTY_ROUNDS: usize = 5;

/// What the crawl loop does after asking for a batch.
#[derive(Clone, Copy, Debug, PartialEq, Eq, Structural)]
pub enum LoopStep {
    /// Nothing pending and nothing running: the crawl is over.
    Stop,
    /// Nothing pending: wait for one running task, pause, and ask again.
    WaitForTask,
    /// Start tasks for the batch.
    ProcessBatch,
}

/// The crawl loop's count of consecutive empty rounds.
#[derive(Clone, Copy, Debug)]
pub struct CrawlLoop {
    pub empty_rounds: usize,
}

impl CrawlLoop {
    pub fn new() -> (l: CrawlLoop)
        ensures
            l.empty_rounds == 0,
    {
        CrawlLoop { empty_rounds: 0 }
    }

    /// Whether the loop goes on: fewer than `MAX_EMPTY_ROUNDS` empty rounds in a row.
    pub fn running(&self) -> (b: bool)
        ensures
            b == (self.empty_rounds < MAX_EMPTY_ROUNDS),
    {
        self.empty_rounds < MAX_EMPTY_ROUNDS
    }

    /// The step after a batch of `batch_len` URLs was taken while
    /// `active_tasks` tasks run: an empty batch counts an empty round.
    pub fn after_batch(&mut self, batch_len: usize, active_tasks: usize) -> (s: LoopStep)
        requires
            old(self).empty_rounds < MAX_EMPTY_ROUNDS,
        ensures
            batch_len > 0 ==> s == LoopStep::ProcessBatch && final(self).empty_rounds == 0,
            batch_len == 0 ==> final(self).empty_rounds == old(self).empty_rounds + 1,
            batch_len == 0 && active_tasks == 0 ==> s == LoopStep::Stop,
            batch_len == 0 && active_tasks > 0 ==> s == LoopStep::WaitForTask,
            final(self).empty_rounds <= MAX_EMPTY_ROUNDS,
    {
        if batch_len == 0 {
            self.empty_rounds = self.empty_rounds + 1;
            if active_tasks > 0 {
                LoopStep::WaitForTask
            } else {
                LoopStep::Stop
            }
        } else {
            self.empty_rounds = 0;
            LoopStep::ProcessBatch
        }
    }
}

/// Whether the loop must wait for a running task before it asks for more:
/// the running tasks fill the concurrency limit.
pub fn must_wait_for_slot(active_tasks: usize, max_concurrent: usize) -> (b: bool)
    ensures
        b == (active_tasks >= max_concurrent),
{
    active_tasks >= max_concurrent
}

/// Dropping the first element commutes with taking views.
proof fn lemma_views_drop_front(s: Seq<ParsedUrl>)
    requires
        s.len() > 0,
    ensures
        views(s.subrange(1, s.len() as int)) == views(s).skip(1),
{
    assert(views(s.subrange(1, s.len() as int)) =~= views(s).skip(1));
}

/// Every URL that a batch takes is admissible, and a batch is no longer than
/// what it was taken from.
pub proof fn lemma_batch_admissible(
    taken: Seq<ParsedUrlView>,
    visited: Seq<Seq<char>>,
    failed: Seq<Seq<char>>,
    max_depth: nat,
)
    ensures
        batch_of(taken, visited, failed, max_depth).len() <= taken.len(),
        forall|i: int|
            0 <= i < batch_of(taken, visited, failed, max_depth).len() ==> admissible(
                visited,
                failed,
                max_depth,
                #[trigger] batch_of(taken, visited, failed, max_depth)[i],
            ),
    decreases taken.len(),
{
    if taken.len() > 0 {
        lemma_batch_admissible(taken.drop_last(), visited, failed, max_depth);
    }
}

/// A URL taken from the queue is put in the batch exactly when it is neither
/// visited nor failed and its depth is within the limit (a limit of 0 means
/// none): every such URL is in the batch, and every URL of the batch is one.
pub proof fn lemma_batch_exact(
    taken: Seq<ParsedUrlView>,
    visited: Seq<Seq<char>>,
    failed: Seq<Seq<char>>,
    max_depth: nat,
)
    ensures
        forall|i: int|
            0 <= i < taken.len() && !visited.contains((#[trigger] taken[i]).url) && !failed.contains(
                taken[i].url,
            ) && (max_depth == 0 || taken[i].depth <= max_depth) ==> batch_of(
                taken,
                visited,
                failed,
                max_depth,
            ).contains(taken[i]),
        forall|j: int|
            0 <= j < batch_of(taken, visited, failed, max_depth).len() ==> {
                let p = #[trigger] batch_of(taken, visited, failed, max_depth)[j];
                &&& taken.contains(p)
                &&& !visited.contains(p.url)
                &&& !failed.contains(p.url)
                &&& (max_depth == 0 || p.depth <= max_depth)
            },
    decreases taken.len(),
{
    lemma_batch_admissible(taken, visited, failed, max_depth);
    lemma_batch_from(taken, visited, failed, max_depth);
    if taken.len() > 0 {
        let prev = taken.drop_last();
        lemma_batch_exact(prev, visited, failed, max_depth);
        let b = batch_of(taken, visited, failed, max_depth);
        let pb = batch_of(prev, visited, failed, max_depth);
        assert forall|i: int|
            0 <= i < taken.len() && !visited.contains((#[trigger] taken[i]).url) && !failed.contains(
                taken[i].url,
            ) && (max_depth == 0 || taken[i].depth <= max_depth) implies b.contains(taken[i]) by {
            if i < prev.len() {
                assert(prev[i] == taken[i]);
                let k = choose|k: int| 0 <= k < pb.len() && pb[k] == prev[i];
                assert(b[k] == pb[k]);
            } else {
                assert(b[b.len() - 1] == taken[i]);
            }
        }
        assert forall|j: int| 0 <= j < b.len() implies taken.contains(#[trigger] b[j]) by {
            let k = choose|k: int| 0 <= k < taken.len() && taken[k] == b[j];
        }
    }
}

proof fn lemma_batch_from(
    taken: Seq<ParsedUrlView>,
    visited: Seq<Seq<char>>,
    failed: Seq<Seq<char>>,
    max_depth: nat,
)
    ensures
        forall|i: int|
            0 <= i < batch_of(taken, visited, failed, max_depth).len() ==> exists|k: int|
                0 <= k < taken.len() && taken[k] == #[trigger] batch_of(
                    taken,
                    visited,
                    failed,
                    max_depth,
                )[i],
    decreases taken.len(),
{
    if taken.len() > 0 {
        let prev = taken.drop_last();
        lemma_batch_from(prev, visited, failed, max_depth);
        let b = batch_of(taken, visited, failed, max_depth);
        let pb = batch_of(prev, visited, failed, max_depth);
        assert forall|i: int| 0 <= i < b.len() implies exists|k: int|
            0 <= k < taken.len() && taken[k] == #[trigger] b[i] by {
            if i < pb.len() {
                assert(b[i] == pb[i]);
                let k = choose|k: int| 0 <= k < prev.len() && prev[k] == #[trigger] pb[i];
                assert(taken[k] == prev[k]);
            } else {
                assert(b[i] == taken[taken.len() - 1]);
            }
        }
    }
}

/// Offering URLs to the queue keeps the queue in front and appends, in order,
/// only URLs that were offered and are neither visited nor failed; every
/// offered URL that is not visited, failed or already waiting ends up waiting.
pub proof fn lemma_queue_after_appends_new(
    pending: Seq<ParsedUrlView>,
    visited: Seq<Seq<char>>,
    failed: Seq<Seq<char>>,
    urls: Seq<ParsedUrlView>,
)
    ensures
        queue_after(pending, visited, failed, urls).len() >= pending.len(),
        queue_after(pending, visited, failed, urls).take(pending.len() as int) == pending,
        forall|k: int|
            pending.len() <= k < queue_after(pending, visited, failed, urls).len() ==> {
                let p = #[trigger] queue_after(pending, visited, failed, urls)[k];
                &&& urls.contains(p)
                &&& !visited.contains(p.url)
                &&& !failed.contains(p.url)
            },
        forall|i: int|
            0 <= i < urls.len() && !visited.contains((#[trigger] urls[i]).url) && !failed.contains(
                urls[i].url,
            ) ==> exists|k: int|
                0 <= k < queue_after(pending, visited, failed, urls).len() && queue_after(
                    pending,
                    visited,
                    failed,
                    urls,
                )[k].url == urls[i].url,
    decreases urls.len(),
{
    lemma_queue_after_grows(pending, visited, failed, urls);
    lemma_queue_after_knows(pending, visited, failed, urls);
    if urls.len() > 0 {
        let prev = urls.drop_last();
        lemma_queue_after_appends_new(pending, visited, failed, prev);
        let q = queue_after(pending, visited, failed, prev);
        let q2 = queue_after(pending, visited, failed, urls);
        assert forall|k: int| pending.len() <= k < q2.len() implies {
            let p = #[trigger] q2[k];
            &&& urls.contains(p)
            &&& !visited.contains(p.url)
            &&& !failed.contains(p.url)
        } by {
            if k < q.len() {
                assert(q2[k] == q[k]);
                let j = choose|j: int| 0 <= j < prev.len() && prev[j] == q[k];
                assert(urls[j] == prev[j]);
            } else {
                assert(q2[k] == urls[urls.len() - 1]);
            }
        }
    }
}

/// A batch taken from a queue in which no URL occurs twice holds no URL twice.
pub proof fn lemma_batch_distinct(
    taken: Seq<ParsedUrlView>,
    visited: Seq<Seq<char>>,
    failed: Seq<Seq<char>>,
    max_depth: nat,
)
    requires
        distinct_urls(taken),
    ensures
        distinct_urls(batch_of(taken, visited, failed, max_depth)),
    decreases taken.len(),
{
    if taken.len() > 0 {
        let prev = taken.drop_last();
        assert forall|i: int, j: int| 0 <= i < j < prev.len() implies (#[trigger] prev[i]).url
            != (#[trigger] prev[j]).url by {
            assert(prev[i] == taken[i] && prev[j] == taken[j]);
        }
        lemma_batch_distinct(prev, visited, failed, max_depth);
        lemma_batch_from(prev, visited, failed, max_depth);
        let b = batch_of(taken, visited, failed, max_depth);
        let pb = batch_of(prev, visited, failed, max_depth);
        if b.len() > pb.len() {
            let last = taken[taken.len() - 1];
            assert forall|i: int, j: int| 0 <= i < j < b.len() implies (#[trigger] b[i]).url
                != (#[trigger] b[j]).url by {
                if j < pb.len() {
                    assert(b[i] == pb[i] && b[j] == pb[j]);
                } else {
                    assert(b[j] == last);
                    assert(b[i] == pb[i]);
                    let k = choose|k: int| 0 <= k < prev.len() && prev[k] == #[trigger] pb[i];
                    assert(taken[k] == prev[k]);
                }
            }
        }
    }
}

proof fn lemma_queue_after_grows(
    pending: Seq<ParsedUrlView>,
    visited: Seq<Seq<char>>,
    failed: Seq<Seq<char>>,
    urls: Seq<ParsedUrlView>,
)
    ensures
        queue_after(pending, visited, failed, urls).len() >= pending.len(),
        queue_after(pending, visited, failed, urls).take(pending.len() as int) == pending,
    decreases urls.len(),
{
    if urls.len() > 0 {
        lemma_queue_after_grows(pending, visited, failed, urls.drop_last());
        let q = queue_after(pending, visited, failed, urls.drop_last());
        assert(q.push(urls.last()).take(pending.len() as int) =~= q.take(pending.len() as int));
    } else {
        assert(pending.take(pending.len() as int) =~= pending);
    }
}

/// After URLs are offered to the queue, each of them is visited, failed or pending.
pub proof fn lemma_queue_after_knows(
    pending: Seq<ParsedUrlView>,
    visited: Seq<Seq<char>>,
    failed: Seq<Seq<char>>,
    urls: Seq<ParsedUrlView>,
)
    ensures
        forall|i: int|
            0 <= i < urls.len() ==> visited.contains((#[trigger] urls[i]).url) || failed.contains(
                urls[i].url,
            ) || has_url(queue_after(pending, visited, failed, urls), urls[i].url),
    decreases urls.len(),
{
    if urls.len() > 0 {
        let prev = urls.drop_last();
        lemma_queue_after_knows(pending, visited, failed, prev);
        let q = queue_after(pending, visited, failed, prev);
        let q2 = queue_after(pending, visited, failed, urls);
        lemma_queue_after_grows(q, visited, failed, seq![urls.last()]);
        assert forall|i: int|
            0 <= i < urls.len() implies visited.contains((#[trigger] urls[i]).url) || failed.contains(
            urls[i].url,
        ) || has_url(q2, urls[i].url) by {
            if i < prev.len() {
                assert(urls[i] == prev[i]);
                if has_url(q, urls[i].url) {
                    let k = choose|k: int| 0 <= k < q.len() && (#[trigger] q[k]).url == urls[i].url;
                    assert(q2[k] == q[k]);
                }
            } else if !visited.contains(urls.last().url) && !failed.contains(urls.last().url) {
                if has_url(q, urls.last().url) {
                    let k = choose|k: int| 0 <= k < q.len() && (#[trigger] q[k]).url == urls.last().url;
                    assert(q2[k] == q[k]);
                } else {
                    assert(q2[q2.len() - 1] == urls.last());
                }
            }
        }
    }
}

proof fn lemma_queue_after_known_noop(
    pending: Seq<ParsedUrlView>,
    visited: Seq<Seq<char>>,
    failed: Seq<Seq<char>>,
    urls: Seq<ParsedUrlView>,
)
    requires
        forall|i: int|
            0 <= i < urls.len() ==> visited.contains((#[trigger] urls[i]).url) || failed.contains(
                urls[i].url,
            ) || has_url(pending, urls[i].url),
    ensures
        queue_after(pending, visited, failed, urls) == pending,
    decreases urls.len(),
{
    if urls.len() > 0 {
        let prev = urls.drop_last();
        assert forall|i: int| 0 <= i < prev.len() implies visited.contains((#[trigger] prev[i]).url)
            || failed.contains(prev[i].url) || has_url(pending, prev[i].url) by {
            assert(prev[i] == urls[i]);
        }
        lemma_queue_after_known_noop(pending, visited, failed, prev);
        assert(urls.last() == urls[urls.len() - 1]);
    }
}

/// Offering the same URLs a second time adds nothing.
pub proof fn lemma_queue_twice(
    pending: Seq<ParsedUrlView>,
    visited: Seq<Seq<char>>,
    failed: Seq<Seq<char>>,
    urls: Seq<ParsedUrlView>,
)
    ensures
        queue_after(queue_after(pending, visited, failed, urls), visited, failed, urls)
            == queue_after(pending, visited, failed, urls),
{
    lemma_queue_after_knows(pending, visited, failed, urls);
    lemma_queue_after_known_noop(queue_after(pending, visited, failed, urls), visited, failed, urls);
}

/// The successful results of category `cat`.
pub open spec fn successful_of(results: Seq<DownloadResultView>, cat: Seq<char>) -> Seq<DownloadResultView> {
    results.filter(|r: DownloadResultView| r.success && result_category(r) == cat)
}

/// The statistics by type list each category once, with the number of
/// successful results of that category; a category that no successful
/// result has is not listed, and every one that some successful result has is.
pub proof fn lemma_category_counts(results: Seq<DownloadResultView>)
    ensures
        forall|a: int, b: int|
            0 <= a < b < category_counts(results).len() ==> (#[trigger] category_counts(results)[a]).0
                != (#[trigger] category_counts(results)[b]).0,
        forall|i: int|
            0 <= i < category_counts(results).len() ==> (#[trigger] category_counts(results)[i]).1
                == successful_of(results, category_counts(results)[i].0).len(),
        forall|cat: Seq<char>|
            (forall|i: int| 0 <= i < category_counts(results).len() ==> (#[trigger] category_counts(results)[i]).0 != cat)
                ==> #[trigger] successful_of(results, cat).len() == 0,
    decreases results.len(),
{
    reveal(Seq::filter);
    if results.len() > 0 {
        let prev = results.drop_last();
        let r = results.last();
        lemma_category_counts(prev);
        let pc = category_counts(prev);
        let c = category_counts(results);
        assert forall|cat: Seq<char>| #[trigger] successful_of(results, cat).len() == successful_of(prev, cat).len()
            + (if r.success && result_category(r) == cat { 1int } else { 0int }) by {
            reveal(Seq::filter);
        }
        if r.success {
            let cat = result_category(r);
            if exists|i: int| 0 <= i < pc.len() && (#[trigger] pc[i]).0 == cat {
                let w = choose|i: int| 0 <= i < pc.len() && (#[trigger] pc[i]).0 == cat;
                assert(c == pc.update(w, (cat, pc[w].1 + 1)));
                assert forall|i: int| 0 <= i < c.len() implies (#[trigger] c[i]).1 == successful_of(
                    results,
                    c[i].0,
                ).len() by {
                    assert(successful_of(results, c[i].0).len() == successful_of(prev, c[i].0).len() + (
                    if r.success && result_category(r) == c[i].0 { 1int } else { 0int }));
                    if i != w {
                        assert(pc[i].0 != cat);
                    }
                }
                assert forall|k: Seq<char>|
                    (forall|i: int| 0 <= i < c.len() ==> (#[trigger] c[i]).0 != k) implies #[trigger] successful_of(
                    results,
                    k,
                ).len() == 0 by {
                    assert forall|i: int| 0 <= i < pc.len() implies (#[trigger] pc[i]).0 != k by {
                        assert(c[i].0 == pc[i].0);
                    }
                    assert(successful_of(results, k).len() == successful_of(prev, k).len() + (
                    if r.success && result_category(r) == k { 1int } else { 0int }));
                    assert(c[w].0 == cat);
                }
            } else {
                assert(c == pc.push((cat, 1nat)));
                assert(successful_of(prev, cat).len() == 0);
                assert forall|i: int| 0 <= i < c.len() implies (#[trigger] c[i]).1 == successful_of(
                    results,
                    c[i].0,
                ).len() by {
                    assert(successful_of(results, c[i].0).len() == successful_of(prev, c[i].0).len() + (
                    if r.success && result_category(r) == c[i].0 { 1int } else { 0int }));
                    if i < pc.len() {
                        assert(c[i] == pc[i]);
                    }
                }
                assert forall|k: Seq<char>|
                    (forall|i: int| 0 <= i < c.len() ==> (#[trigger] c[i]).0 != k) implies #[trigger] successful_of(
                    results,
                    k,
                ).len() == 0 by {
                    assert forall|i: int| 0 <= i < pc.len() implies (#[trigger] pc[i]).0 != k by {
                        assert(c[i] == pc[i]);
                    }
                    assert(successful_of(results, k).len() == successful_of(prev, k).len() + (
                    if r.success && result_category(r) == k { 1int } else { 0int }));
                    assert(c[pc.len() as int].0 == cat);
                }
                assert forall|a: int, b: int| 0 <= a < b < c.len() implies (#[trigger] c[a]).0 != (#[trigger] c[b]).0 by {
                    if b < pc.len() {
                        assert(c[a] == pc[a] && c[b] == pc[b]);
                    } else {
                        assert(c[a] == pc[a]);
                    }
                }
            }
        } else {
            assert(c == pc);
            assert forall|i: int| 0 <= i < c.len() implies (#[trigger] c[i]).1 == successful_of(
                results,
                c[i].0,
            ).len() by {
                assert(successful_of(results, c[i].0).len() == successful_of(prev, c[i].0).len());
            }
            assert forall|k: Seq<char>|
                (forall|i: int| 0 <= i < c.len() ==> (#[trigger] c[i]).0 != k) implies #[trigger] successful_of(
                results,
                k,
            ).len() == 0 by {
                assert(successful_of(results, k).len() == successful_of(prev, k).len());
            }
        }
    } else {
        assert forall|k: Seq<char>| #[trigger] successful_of(results, k).len() == 0 by {
            reveal(Seq::filter);
        }
    }
}

/// A batch takes as many URLs off the queue as the concurrency limit allows,
/// or all of them when fewer wait.
pub proof fn lemma_batch_size(max_concurrent: nat, pending: nat)
    ensures
        min(max_concurrent, pending) <= max_concurrent,
        min(max_concurrent, pending) <= pending,
        min(max_concurrent, pending) == max_concurrent || min(max_concurrent, pending) == pending,
{
}

} // verus!
