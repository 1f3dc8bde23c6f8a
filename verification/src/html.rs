//! Link discovery: pulling candidate href/src strings out of a raw
//! document, cleaning them, and resolving them against the page's URI;
//! and relative-path absolutization with `.`/`..` handling.

use vstd::prelude::*;
use vstd::string::*;
use crate::text::{find_char_from, find_from, str_views};
use crate::uri::{spec_error_message, spec_resolve, uri_views, Uri, UriView};

verus! {

/// Segments of `s` between `/` separators, empty ones left out.
pub open spec fn split_nonempty(s: Seq<char>) -> Seq<Seq<char>>
    decreases s.len(),
{
    if s.len() == 0 {
        Seq::<Seq<char>>::empty()
    } else {
        let k = find_from(s, '/', 0);
        if !(0 <= k < s.len()) {
            seq![s]
        } else {
            let head = s.take(k);
            let rest = split_nonempty(s.subrange(k + 1, s.len() as int));
            if head.len() == 0 {
                rest
            } else {
                seq![head] + rest
            }
        }
    }
}

/// One left-to-right pass over segments: a `.` segment is dropped, a `..`
/// segment pops the most recent retained segment, anything else is kept.
pub open spec fn normalize_walk(acc: Seq<Seq<char>>, segs: Seq<Seq<char>>) -> Seq<Seq<char>>
    decreases segs.len(),
{
    if segs.len() == 0 {
        acc
    } else {
        let s0 = segs[0];
        let acc2 = if s0 == seq!['.'] {
            acc
        } else if s0 == seq!['.', '.'] {
            if acc.len() > 0 {
                acc.drop_last()
            } else {
                acc
            }
        } else {
            acc.push(s0)
        };
        normalize_walk(acc2, segs.drop_first())
    }
}

/// Segments joined back into a path, each preceded by a `/` separator.
pub open spec fn join_slash(segs: Seq<Seq<char>>) -> Seq<char>
    decreases segs.len(),
{
    if segs.len() == 0 {
        Seq::<char>::empty()
    } else {
        seq!['/'] + segs[0] + join_slash(segs.drop_first())
    }
}

/// What `absolutize_path` returns. An empty relative path stays empty; a
/// path already absolute and not dot-relative is returned unchanged;
/// otherwise the base path's directory segments (its last segment dropped
/// when it does not name a directory) are extended with the relative
/// path's segments and the combined list is normalised and re-joined.
/// The result never carries a trailing separator.
pub open spec fn spec_absolutize(path: Seq<char>, base: Seq<char>) -> Seq<char> {
    if path.len() == 0 {
        Seq::<char>::empty()
    } else if path[0] == '/' && !(path.len() >= 2 && path[1] == '.') {
        path
    } else {
        let base_segs = split_nonempty(base);
        let kept = if base.len() > 0 && base[base.len() - 1] == '/' {
            base_segs
        } else if base_segs.len() > 0 {
            base_segs.drop_last()
        } else {
            base_segs
        };
        join_slash(normalize_walk(Seq::<Seq<char>>::empty(), kept + split_nonempty(path)))
    }
}

/// Views of a sequence of borrowed string slices.
pub open spec fn str_slice_views(v: Seq<&str>) -> Seq<Seq<char>> {
    v.map_values(|t: &str| t@)
}

/// Split a path into its non-empty `/`-separated segments.
fn split_segments<'a>(s: &'a str) -> (r: Vec<&'a str>)
    ensures
        str_slice_views(r@) == split_nonempty(s@),
{
    let n = s.unicode_len();
    let mut out: Vec<&'a str> = Vec::new();
    let mut pos: usize = 0;
    proof {
        assert(s@.subrange(0, n as int) =~= s@);
        assert(str_slice_views(out@) =~= Seq::<Seq<char>>::empty());
        assert(Seq::<Seq<char>>::empty() + split_nonempty(s@) =~= split_nonempty(s@));
    }
    while pos < n
        invariant
            pos <= n,
            n == s@.len(),
            str_slice_views(out@) + split_nonempty(s@.subrange(pos as int, n as int))
                == split_nonempty(s@),
        decreases n - pos,
    {
        let k = find_char_from(s, '/', pos);
        let seg = s.substring_char(pos, k);
        proof {
            let sub = s@.subrange(pos as int, n as int);
            let ksub = k - pos;
            assert(forall|j: int|
                0 <= j < ksub ==> sub[j] == s@[pos + j] && s@[pos + j] != '/');
            if k < n {
                assert(sub[ksub as int] == s@[k as int]);
            }
            crate::text::lemma_find_from_is(sub, '/', 0, ksub as int);
            assert(sub.take(ksub as int) =~= s@.subrange(pos as int, k as int));
            if k < n {
                assert(sub.subrange(ksub + 1, sub.len() as int) =~= s@.subrange(
                    k + 1,
                    n as int,
                ));
            } else {
                assert(sub =~= s@.subrange(pos as int, k as int));
            }
        }
        if k == n {
            if pos < k {
                let ghost before = str_slice_views(out@);
                out.push(seg);
                proof {
                    assert(str_slice_views(out@) =~= before.push(seg@));
                    assert(before.push(seg@) =~= before + seq![seg@]);
                }
            }
            pos = n;
        } else {
            if pos < k {
                let ghost before = str_slice_views(out@);
                out.push(seg);
                proof {
                    assert(str_slice_views(out@) =~= before.push(seg@));
                    assert(before.push(seg@) =~= before + seq![seg@]);
                }
            }
            pos = k + 1;
        }
        proof {
            assert(str_slice_views(out@) + split_nonempty(s@.subrange(pos as int, n as int))
                =~= split_nonempty(s@));
        }
    }
    proof {
        assert(s@.subrange(n as int, n as int) =~= Seq::<char>::empty());
        assert(str_slice_views(out@) =~= split_nonempty(s@));
    }
    out
}

/// Apply the `.`/`..` walk to a segment list.
fn normalize_segments<'a>(sections: Vec<&'a str>) -> (r: Vec<&'a str>)
    ensures
        str_slice_views(r@) == normalize_walk(
            Seq::<Seq<char>>::empty(),
            str_slice_views(sections@),
        ),
{
    let ghost all = str_slice_views(sections@);
    let mut out: Vec<&'a str> = Vec::new();
    let mut i: usize = 0;
    proof {
        assert(all.skip(0) =~= all);
        assert(str_slice_views(out@) =~= Seq::<Seq<char>>::empty());
    }
    while i < sections.len()
        invariant
            i <= sections.len(),
            all == str_slice_views(sections@),
            normalize_walk(str_slice_views(out@), all.skip(i as int)) == normalize_walk(
                Seq::<Seq<char>>::empty(),
                all,
            ),
        decreases sections.len() - i,
    {
        let seg = sections[i];
        let ghost acc = str_slice_views(out@);
        proof {
            assert(all.skip(i as int)[0] == seg@);
            assert(all.skip(i as int).drop_first() =~= all.skip(i as int + 1));
        }
        let is_dot = seg.unicode_len() == 1 && seg.get_char(0) == '.';
        let is_dotdot = seg.unicode_len() == 2 && seg.get_char(0) == '.' && seg.get_char(1)
            == '.';
        proof {
            if is_dot {
                assert(seg@ =~= seq!['.']);
            } else if seg@ == seq!['.'] {
                assert(seg@.len() == 1 && seg@[0] == '.');
            }
            if is_dotdot {
                assert(seg@ =~= seq!['.', '.']);
            } else if seg@ == seq!['.', '.'] {
                assert(seg@.len() == 2 && seg@[0] == '.' && seg@[1] == '.');
            }
        }
        if is_dot {
            // dropped
        } else if is_dotdot {
            if out.len() > 0 {
                out.pop();
                proof {
                    assert(str_slice_views(out@) =~= acc.drop_last());
                }
            }
        } else {
            out.push(seg);
            proof {
                assert(str_slice_views(out@) =~= acc.push(seg@));
            }
        }
        i += 1;
    }
    proof {
        assert(all.skip(sections@.len() as int) =~= Seq::<Seq<char>>::empty());
    }
    out
}

/// Join segments with `/` separators.
fn join_segments(sections: &Vec<&str>) -> (r: String)
    ensures
        r@ == join_slash(str_slice_views(sections@)),
{
    let ghost all = str_slice_views(sections@);
    let mut out = String::new();
    let mut i: usize = 0;
    proof {
        assert(all.skip(0) =~= all);
        assert(out@ + join_slash(all) =~= join_slash(all));
    }
    while i < sections.len()
        invariant
            i <= sections.len(),
            all == str_slice_views(sections@),
            out@ + join_slash(all.skip(i as int)) == join_slash(all),
        decreases sections.len() - i,
    {
        let seg = sections[i];
        proof {
            reveal_strlit("/");
            assert("/"@ =~= seq!['/']);
            assert(all.skip(i as int)[0] == seg@);
            assert(all.skip(i as int).drop_first() =~= all.skip(i as int + 1));
        }
        let ghost before = out@;
        out.append("/");
        out.append(seg);
        proof {
            assert(out@ =~= before + seq!['/'] + seg@);
            assert(out@ + join_slash(all.skip(i as int + 1)) =~= before + join_slash(
                all.skip(i as int),
            ));
        }
        i += 1;
    }
    proof {
        assert(all.skip(sections@.len() as int) =~= Seq::<Seq<char>>::empty());
        assert(out@ + join_slash(all.skip(sections@.len() as int)) =~= out@);
    }
    out
}

/// Make a relative path absolute against the path of the page it was
/// found on.
pub fn absolutize_path(path: &str, base_path: &str) -> (r: String)
    ensures
        r@ == spec_absolutize(path@, base_path@),
{
    let np = path.unicode_len();
    if np == 0 {
        return String::new();
    }
    if path.get_char(0) == '/' && !(np >= 2 && path.get_char(1) == '.') {
        return path.to_owned();
    }
    let mut sections = split_segments(base_path);
    let nb = base_path.unicode_len();
    let dir = nb > 0 && base_path.get_char(nb - 1) == '/';
    if !dir {
        let ghost before = str_slice_views(sections@);
        sections.pop();
        proof {
            if before.len() > 0 {
                assert(str_slice_views(sections@) =~= before.drop_last());
            } else {
                assert(str_slice_views(sections@) =~= before);
            }
        }
    }
    let ghost kept = str_slice_views(sections@);
    let mut psecs = split_segments(path);
    let ghost pviews = str_slice_views(psecs@);
    sections.append(&mut psecs);
    proof {
        assert(str_slice_views(sections@) =~= kept + pviews);
    }
    let normalized = normalize_segments(sections);
    join_segments(&normalized)
}

/// Spaces in an href are percent-encoded before the href is parsed.
pub open spec fn spec_clean_href(s: Seq<char>) -> Seq<char>
    decreases s.len(),
{
    if s.len() == 0 {
        Seq::<char>::empty()
    } else {
        (if s[0] == ' ' {
            seq!['%', '2', '0']
        } else {
            seq![s[0]]
        }) + spec_clean_href(s.drop_first())
    }
}

/// Replace each literal space in an href by `%20`.
pub fn clean_up_href(href: &str) -> (r: String)
    ensures
        r@ == spec_clean_href(href@),
{
    let n = href.unicode_len();
    let mut out = String::new();
    let mut i: usize = 0;
    proof {
        assert(href@.skip(0) =~= href@);
        assert(out@ + spec_clean_href(href@) =~= spec_clean_href(href@));
    }
    while i < n
        invariant
            i <= n,
            n == href@.len(),
            out@ + spec_clean_href(href@.skip(i as int)) == spec_clean_href(href@),
        decreases n - i,
    {
        let c = href.get_char(i);
        proof {
            assert(href@.skip(i as int)[0] == c);
            assert(href@.skip(i as int).drop_first() =~= href@.skip(i as int + 1));
        }
        let ghost before = out@;
        if c == ' ' {
            out.append("%20");
            proof {
                reveal_strlit("%20");
                assert("%20"@ =~= seq!['%', '2', '0']);
            }
        } else {
            let piece = href.substring_char(i, i + 1);
            proof {
                assert(piece@ =~= seq![c]);
            }
            out.append(piece);
        }
        proof {
            assert(out@ + spec_clean_href(href@.skip(i as int + 1)) =~= before
                + spec_clean_href(href@.skip(i as int)));
        }
        i += 1;
    }
    proof {
        assert(href@.skip(n as int) =~= Seq::<char>::empty());
        assert(out@ + spec_clean_href(href@.skip(n as int)) =~= out@);
    }
    out
}

/// The pattern that matches an anchor's `href` attribute value.
pub open spec fn anchor_href_pattern() -> Seq<char> {
    "<a [^>]*href=\"([^\"]*)"@
}

/// The pattern that matches a `<link>` element's `href` attribute value.
pub open spec fn link_href_pattern() -> Seq<char> {
    "<link [^>]*href=\"([^\"]*)\""@
}

/// The pattern that matches a `<script>` element's `src` attribute value.
pub open spec fn script_src_pattern() -> Seq<char> {
    "<script [^>]*src=\"([^\"]*)\""@
}

/// The first capture group of each successive non-overlapping match of
/// `pattern` in `text`, in document order.
pub uninterp spec fn captures_of(pattern: Seq<char>, text: Seq<char>) -> Seq<Seq<char>>;

/// Relies on regex::Regex::captures_iter (and regex::Regex::new): the
/// successive non-overlapping matches of a pattern in a text, scanned in
/// order; of each match the first capture group is taken. The result
/// depends on the pattern and the text alone.
#[verifier::external_body]
fn regex_capture_all(pattern: &str, text: &str) -> (r: Vec<String>)
    ensures
        str_views(r@) == captures_of(pattern@, text@),
{
    let mut out = Vec::new();
    if let Ok(re) = regex::Regex::new(pattern) {
        for caps in re.captures_iter(text) {
            if let Some(m) = caps.get(1) {
                out.push(String::from(m.as_str()));
            }
        }
    }
    out
}

/// Every candidate link string of a document: anchor hrefs, then `<link>`
/// hrefs, then `<script>` srcs, each group in document order.
pub open spec fn page_candidates(body: Seq<char>) -> Seq<Seq<char>> {
    captures_of(anchor_href_pattern(), body) + captures_of(link_href_pattern(), body)
        + captures_of(script_src_pattern(), body)
}

/// Collect the candidate link strings of a document body.
pub fn get_url_strings_from_doc(urls: &mut Vec<String>, body_str: &str)
    ensures
        str_views(final(urls)@) == str_views(old(urls)@) + page_candidates(body_str@),
{
    let ghost before = str_views(urls@);
    let mut a = regex_capture_all("<a [^>]*href=\"([^\"]*)", body_str);
    let ghost va = str_views(a@);
    urls.append(&mut a);
    proof {
        assert(str_views(urls@) =~= before + va);
    }
    let mut l = regex_capture_all("<link [^>]*href=\"([^\"]*)\"", body_str);
    let ghost vl = str_views(l@);
    urls.append(&mut l);
    proof {
        assert(str_views(urls@) =~= before + va + vl);
    }
    let mut s = regex_capture_all("<script [^>]*src=\"([^\"]*)\"", body_str);
    let ghost vs = str_views(s@);
    urls.append(&mut s);
    proof {
        assert(str_views(urls@) =~= str_views(old(urls)@) + page_candidates(body_str@));
    }
}

/// Candidates that never reach resolution: fragment-only hrefs and
/// `mailto` links, judged on the cleaned href.
pub open spec fn skip_candidate(cleaned: Seq<char>) -> bool {
    (cleaned.len() >= 1 && cleaned[0] == '#') || (cleaned.len() >= 6 && cleaned[0] == 'm'
        && cleaned[1] == 'a' && cleaned[2] == 'i' && cleaned[3] == 'l' && cleaned[4] == 't'
        && cleaned[5] == 'o')
}

/// URIs already discovered, extended by what the remaining candidate
/// strings resolve to, left to right: skipped and unresolvable
/// candidates contribute nothing, and a candidate whose resolved URI was
/// discovered before contributes nothing again.
pub open spec fn spec_discovered_from(
    acc: Seq<UriView>,
    cands: Seq<Seq<char>>,
    base: UriView,
) -> Seq<UriView>
    decreases cands.len(),
{
    if cands.len() == 0 {
        acc
    } else {
        let acc2 = if skip_candidate(spec_clean_href(cands[0])) {
            acc
        } else {
            match spec_resolve(base, cands[0]) {
                Ok(u) => if acc.contains(u) {
                    acc
                } else {
                    acc.push(u)
                },
                Err(e) => acc,
            }
        };
        spec_discovered_from(acc2, cands.drop_first(), base)
    }
}

/// The URIs that candidate strings resolve to against a page's URI, in
/// first-appearance order and with no duplicate value: one page's
/// discovery yields a set.
pub open spec fn spec_discovered(cands: Seq<Seq<char>>, base: UriView) -> Seq<UriView> {
    spec_discovered_from(Seq::<UriView>::empty(), cands, base)
}

/// The error line recorded for a candidate that fails to resolve.
pub open spec fn resolve_error_line(e: (crate::uri::UriSection, Seq<char>), cand: Seq<char>)
    -> Seq<char> {
    spec_error_message(e) + " in url "@ + spec_clean_href(cand)
}

/// The error lines produced while resolving candidate strings, in
/// candidate order: one line per unskipped candidate that fails.
pub open spec fn spec_discovery_errors(cands: Seq<Seq<char>>, base: UriView) -> Seq<Seq<char>>
    decreases cands.len(),
{
    if cands.len() == 0 {
        Seq::<Seq<char>>::empty()
    } else {
        let head = if skip_candidate(spec_clean_href(cands[0])) {
            Seq::<Seq<char>>::empty()
        } else {
            match spec_resolve(base, cands[0]) {
                Ok(u) => Seq::<Seq<char>>::empty(),
                Err(e) => seq![resolve_error_line(e, cands[0])],
            }
        };
        head + spec_discovery_errors(cands.drop_first(), base)
    }
}

/// Does the list hold a URI with this value?
fn contains_uri(v: &Vec<Uri>, uri: &Uri) -> (r: bool)
    ensures
        r == uri_views(v@).contains(uri@),
{
    let mut i: usize = 0;
    while i < v.len()
        invariant
            i <= v@.len(),
            forall|j: int| 0 <= j < i ==> v@[j]@ != uri@,
        decreases v@.len() - i,
    {
        if v[i] == *uri {
            proof {
                assert(uri_views(v@)[i as int] == uri@);
            }
            return true;
        }
        i += 1;
    }
    proof {
        if uri_views(v@).contains(uri@) {
            let j = choose|j: int|
                0 <= j < uri_views(v@).len() && uri_views(v@)[j] == uri@;
            assert(v@[j]@ == uri@);
        }
    }
    false
}

/// Resolve candidate link strings against the page they were found on,
/// appending each distinct resolved URI once. One bad link never blocks
/// the others: a failing candidate only adds a line to `errors`.
pub fn get_urls_from_page(
    urls: &mut Vec<Uri>,
    errors: &mut Vec<String>,
    paths_to_follow: &Vec<String>,
    parent_uri: &Uri,
)
    ensures
        uri_views(final(urls)@) == uri_views(old(urls)@) + spec_discovered(
            str_views(paths_to_follow@),
            parent_uri@,
        ),
        str_views(final(errors)@) == str_views(old(errors)@) + spec_discovery_errors(
            str_views(paths_to_follow@),
            parent_uri@,
        ),
{
    let ghost all = str_views(paths_to_follow@);
    let ghost base = parent_uri@;
    let mut fresh: Vec<Uri> = Vec::new();
    let mut i: usize = 0;
    proof {
        assert(all.skip(0) =~= all);
        assert(uri_views(fresh@) =~= Seq::<UriView>::empty());
        assert(str_views(errors@) + spec_discovery_errors(all, base) =~= str_views(old(errors)@)
            + spec_discovery_errors(all, base));
    }
    while i < paths_to_follow.len()
        invariant
            i <= paths_to_follow.len(),
            all == str_views(paths_to_follow@),
            base == parent_uri@,
            urls@ == old(urls)@,
            spec_discovered_from(uri_views(fresh@), all.skip(i as int), base)
                == spec_discovered(all, base),
            str_views(errors@) + spec_discovery_errors(all.skip(i as int), base) == str_views(
                old(errors)@,
            ) + spec_discovery_errors(all, base),
        decreases paths_to_follow.len() - i,
    {
        proof {
            assert(all.skip(i as int)[0] == paths_to_follow@[i as int]@);
            assert(all.skip(i as int).drop_first() =~= all.skip(i as int + 1));
        }
        let href = clean_up_href(paths_to_follow[i].as_str());
        let hn = href.as_str().unicode_len();
        let skipped = (hn >= 1 && href.as_str().get_char(0) == '#') || (hn >= 6
            && href.as_str().get_char(0) == 'm' && href.as_str().get_char(1) == 'a'
            && href.as_str().get_char(2) == 'i' && href.as_str().get_char(3) == 'l'
            && href.as_str().get_char(4) == 't' && href.as_str().get_char(5) == 'o');
        let ghost fs = uri_views(fresh@);
        let ghost es = str_views(errors@);
        if !skipped {
            match parent_uri.resolve(paths_to_follow[i].as_str()) {
                Ok(u) => {
                    let ghost uv = u@;
                    if !contains_uri(&fresh, &u) {
                        fresh.push(u);
                        proof {
                            assert(uri_views(fresh@) =~= fs.push(uv));
                        }
                    }
                    proof {
                        assert(spec_discovered_from(
                            uri_views(fresh@),
                            all.skip(i as int + 1),
                            base,
                        ) == spec_discovered_from(fs, all.skip(i as int), base));
                    }
                },
                Err(e) => {
                    let mut msg = e.message();
                    msg.append(" in url ");
                    msg.append(href.as_str());
                    errors.push(msg);
                    proof {
                        assert(str_views(errors@) + spec_discovery_errors(
                            all.skip(i as int + 1),
                            base,
                        ) =~= es + spec_discovery_errors(all.skip(i as int), base));
                    }
                },
            }
        }
        i += 1;
    }
    proof {
        assert(all.skip(paths_to_follow@.len() as int) =~= Seq::<Seq<char>>::empty());
        assert(str_views(errors@) + spec_discovery_errors(
            all.skip(paths_to_follow@.len() as int),
            base,
        ) =~= str_views(errors@));
    }
    let ghost found = uri_views(fresh@);
    urls.append(&mut fresh);
    proof {
        assert(uri_views(urls@) =~= uri_views(old(urls)@) + found);
    }
}

/// The URI absorbed for the first remaining candidate, when one is.
spec fn discovery_step(acc: Seq<UriView>, cands: Seq<Seq<char>>, base: UriView) -> Seq<
    UriView,
> {
    if skip_candidate(spec_clean_href(cands[0])) {
        acc
    } else {
        match spec_resolve(base, cands[0]) {
            Ok(u) => if acc.contains(u) {
                acc
            } else {
                acc.push(u)
            },
            Err(e) => acc,
        }
    }
}

proof fn lemma_discovered_from_fragmentless(
    acc: Seq<UriView>,
    cands: Seq<Seq<char>>,
    base: UriView,
)
    requires
        forall|i: int| 0 <= i < acc.len() ==> acc[i].fragment.len() == 0,
    ensures
        forall|i: int|
            0 <= i < spec_discovered_from(acc, cands, base).len()
                ==> #[trigger] spec_discovered_from(acc, cands, base)[i].fragment.len() == 0,
    decreases cands.len(),
{
    if cands.len() > 0 {
        let acc2 = discovery_step(acc, cands, base);
        assert forall|i: int| 0 <= i < acc2.len() implies acc2[i].fragment.len() == 0 by {
            if i < acc.len() {
                assert(acc2[i] == acc[i]);
            } else {
                assert(spec_resolve(base, cands[0]) matches Ok(u) && acc2[i] == u);
            }
        }
        lemma_discovered_from_fragmentless(acc2, cands.drop_first(), base);
        assert(spec_discovered_from(acc, cands, base) == spec_discovered_from(
            acc2,
            cands.drop_first(),
            base,
        ));
    }
}

/// Every URI that link discovery produces has an empty fragment:
/// resolution strips fragments, so fragments never take part in the
/// graph's deduplication key.
pub proof fn lemma_discovered_fragmentless(cands: Seq<Seq<char>>, base: UriView)
    ensures
        forall|i: int|
            0 <= i < spec_discovered(cands, base).len() ==> #[trigger] spec_discovered(
                cands,
                base,
            )[i].fragment.len() == 0,
{
    lemma_discovered_from_fragmentless(Seq::<UriView>::empty(), cands, base);
}

proof fn lemma_discovered_from_no_dup(acc: Seq<UriView>, cands: Seq<Seq<char>>, base: UriView)
    requires
        forall|i: int, j: int| 0 <= i < j < acc.len() ==> acc[i] != acc[j],
    ensures
        forall|i: int, j: int|
            0 <= i < j < spec_discovered_from(acc, cands, base).len()
                ==> spec_discovered_from(acc, cands, base)[i] != spec_discovered_from(
                acc,
                cands,
                base,
            )[j],
    decreases cands.len(),
{
    if cands.len() > 0 {
        let acc2 = discovery_step(acc, cands, base);
        assert forall|i: int, j: int| 0 <= i < j < acc2.len() implies acc2[i] != acc2[j] by {
            if j == acc.len() && acc2.len() > acc.len() {
                if acc2[i] == acc2[j] {
                    assert(acc.contains(acc2[j]));
                }
            } else {
                assert(acc2[i] == acc[i] && acc2[j] == acc[j]);
            }
        }
        lemma_discovered_from_no_dup(acc2, cands.drop_first(), base);
        assert(spec_discovered_from(acc, cands, base) == spec_discovered_from(
            acc2,
            cands.drop_first(),
            base,
        ));
    }
}

/// One page's discovery yields a set: the discovered sequence holds no
/// duplicate value.
pub proof fn lemma_discovered_no_dup(cands: Seq<Seq<char>>, base: UriView)
    ensures
        forall|i: int, j: int|
            0 <= i < j < spec_discovered(cands, base).len() ==> spec_discovered(cands, base)[i]
                != spec_discovered(cands, base)[j],
{
    lemma_discovered_from_no_dup(Seq::<UriView>::empty(), cands, base);
}

/// Turn a page's body into the resolved URIs it links to, recording one
/// error line for each candidate that fails to resolve.
pub fn get_neighbors(urls: &mut Vec<Uri>, errors: &mut Vec<String>, body_str: &str, uri: &Uri)
    ensures
        uri_views(final(urls)@) == uri_views(old(urls)@) + spec_discovered(
            page_candidates(body_str@),
            uri@,
        ),
        str_views(final(errors)@) == str_views(old(errors)@) + spec_discovery_errors(
            page_candidates(body_str@),
            uri@,
        ),
{
    let mut paths_to_follow: Vec<String> = Vec::new();
    get_url_strings_from_doc(&mut paths_to_follow, body_str);
    proof {
        assert(str_views(paths_to_follow@) =~= page_candidates(body_str@));
    }
    get_urls_from_page(urls, errors, &paths_to_follow, uri);
}

} // verus!
