//! Structured URIs: parsing a raw string into its six components,
//! rendering one back, and building one field by field.
//!
//! The grammar: an optional `scheme://` prefix (recognised when the first
//! `:` is immediately followed by `//`), then an authority `host[:port]`
//! running to the first `/` or `?` after it, then the path, then an
//! optional `?query` up to the first `#`, then an optional `#fragment`.
//! A string without any `:` is all path. A host of exactly `.` is
//! normalised away: the host becomes empty and the path starts one
//! character later. Host, path, query and fragment must each satisfy the
//! restricted section character class; the first offending section is
//! reported as the parse error.

use vstd::prelude::*;
use vstd::string::*;
use crate::text::{
    allowed_char, check_section, find_char_from, find_from, lemma_find_from_is,
    lemma_find_from_props, valid_section,
};

verus! {

/// Mathematical value of a `Uri`: its six components as character sequences.
#[verifier::ext_equal]
pub ghost struct UriView {
    pub protocol: Seq<char>,
    pub host: Seq<char>,
    pub port: Seq<char>,
    pub path: Seq<char>,
    pub query: Seq<char>,
    pub fragment: Seq<char>,
}

/// A parsed URI. All components are text and may be empty.
#[derive(Debug)]
pub struct Uri {
    pub protocol: String,
    pub host: String,
    pub port: String,
    pub path: String,
    pub query: String,
    pub fragment: String,
}

impl View for Uri {
    type V = UriView;

    open spec fn view(&self) -> UriView {
        UriView {
            protocol: self.protocol@,
            host: self.host@,
            port: self.port@,
            path: self.path@,
            query: self.query@,
            fragment: self.fragment@,
        }
    }
}

/// The URI every component of which is empty.
pub open spec fn empty_uri() -> UriView {
    UriView {
        protocol: Seq::<char>::empty(),
        host: Seq::<char>::empty(),
        port: Seq::<char>::empty(),
        path: Seq::<char>::empty(),
        query: Seq::<char>::empty(),
        fragment: Seq::<char>::empty(),
    }
}

/// The components a raw string divides into, before any validation.
pub open spec fn raw_parse(s: Seq<char>) -> UriView {
    let n = s.len() as int;
    if n == 0 {
        empty_uri()
    } else {
        let cpos = find_from(s, ':', 0);
        let qpos = find_from(s, '?', 0);
        let fpos = find_from(s, '#', 0);
        let qf = if qpos <= fpos {
            qpos
        } else {
            fpos
        };
        let query = if qpos < fpos {
            s.subrange(qpos + 1, fpos)
        } else {
            Seq::<char>::empty()
        };
        let fragment = if fpos < n {
            s.subrange(fpos + 1, n)
        } else {
            Seq::<char>::empty()
        };
        if cpos < n {
            let has_scheme = cpos + 2 < n && s[cpos + 1] == '/' && s[cpos + 2] == '/';
            let protocol = if has_scheme {
                s.take(cpos)
            } else {
                Seq::<char>::empty()
            };
            let host_start = if has_scheme {
                cpos + 3
            } else {
                0
            };
            let slash = find_from(s, '/', host_start);
            let q2 = find_from(s, '?', host_start);
            let auth_end = if slash <= q2 {
                slash
            } else {
                q2
            };
            let c2 = find_from(s, ':', host_start);
            let host_raw = if c2 < auth_end {
                s.subrange(host_start, c2)
            } else {
                s.subrange(host_start, auth_end)
            };
            let port = if c2 < auth_end {
                s.subrange(c2 + 1, auth_end)
            } else {
                Seq::<char>::empty()
            };
            let dotted = host_raw == seq!['.'];
            let host = if dotted {
                Seq::<char>::empty()
            } else {
                host_raw
            };
            let path_start = if dotted && auth_end < n {
                auth_end + 1
            } else {
                auth_end
            };
            let path = if path_start <= qf {
                s.subrange(path_start, qf)
            } else {
                Seq::<char>::empty()
            };
            UriView { protocol, host, port, path, query, fragment }
        } else {
            let path = s.take(qf);
            UriView {
                protocol: Seq::<char>::empty(),
                host: Seq::<char>::empty(),
                port: Seq::<char>::empty(),
                path,
                query,
                fragment,
            }
        }
    }
}

/// The URI sections that are validated against the restricted character
/// class, in the order they are checked.
#[derive(Clone, Copy, Debug, PartialEq, Eq, Structural)]
pub enum UriSection {
    Host,
    Path,
    Query,
    Fragment,
}

/// Why a string failed to parse: the first section holding a character
/// outside the allowed class, together with that section's text.
#[derive(Debug)]
pub struct ParseError {
    pub section: UriSection,
    pub value: String,
}

impl View for ParseError {
    type V = (UriSection, Seq<char>);

    open spec fn view(&self) -> (UriSection, Seq<char>) {
        (self.section, self.value@)
    }
}

/// Validation of an already-divided URI: the first section outside the
/// allowed character class decides the error.
pub open spec fn spec_validate(u: UriView) -> Result<UriView, (UriSection, Seq<char>)> {
    if !valid_section(u.host) {
        Err((UriSection::Host, u.host))
    } else if !valid_section(u.path) {
        Err((UriSection::Path, u.path))
    } else if !valid_section(u.query) {
        Err((UriSection::Query, u.query))
    } else if !valid_section(u.fragment) {
        Err((UriSection::Fragment, u.fragment))
    } else {
        Ok(u)
    }
}

/// What `Uri::parse` returns on a given string.
pub open spec fn spec_parse(s: Seq<char>) -> Result<UriView, (UriSection, Seq<char>)> {
    spec_validate(raw_parse(s))
}

/// What `Uri::render` returns: a `protocol://host[:port]` head, omitted
/// entirely only when protocol and host are both empty, then the path,
/// then `?query` and `#fragment` when those are non-empty.
pub open spec fn spec_render(u: UriView) -> Seq<char> {
    (if u.protocol.len() > 0 || u.host.len() > 0 {
        u.protocol + seq![':', '/', '/'] + u.host + (if u.port.len() > 0 {
            seq![':'] + u.port
        } else {
            Seq::<char>::empty()
        })
    } else {
        Seq::<char>::empty()
    }) + u.path + (if u.query.len() > 0 {
        seq!['?'] + u.query
    } else {
        Seq::<char>::empty()
    }) + (if u.fragment.len() > 0 {
        seq!['#'] + u.fragment
    } else {
        Seq::<char>::empty()
    })
}

/// Views of a sequence of URIs.
pub open spec fn uri_views(v: Seq<Uri>) -> Seq<UriView> {
    v.map_values(|u: Uri| u@)
}

/// The name under which a section is reported in a parse error.
pub open spec fn section_name(s: UriSection) -> Seq<char> {
    match s {
        UriSection::Host => "host"@,
        UriSection::Path => "path"@,
        UriSection::Query => "query"@,
        UriSection::Fragment => "fragment"@,
    }
}

/// The text of a parse error: the offending section's name and its value.
pub open spec fn spec_error_message(e: (UriSection, Seq<char>)) -> Seq<char> {
    "Invalid character in "@ + section_name(e.0) + " ("@ + e.1 + ")"@
}

impl ParseError {
    /// This error as one line of text.
    pub fn message(&self) -> (r: String)
        ensures
            r@ == spec_error_message(self@),
    {
        let mut out = String::new();
        out.append("Invalid character in ");
        match self.section {
            UriSection::Host => out.append("host"),
            UriSection::Path => out.append("path"),
            UriSection::Query => out.append("query"),
            UriSection::Fragment => out.append("fragment"),
        }
        out.append(" (");
        out.append(self.value.as_str());
        out.append(")");
        proof {
            assert(out@ =~= spec_error_message(self@));
        }
        out
    }
}

/// What `Uri::resolve` returns: the href has its spaces percent-encoded
/// and is parsed; an empty protocol is inherited from the base; a
/// protocol-relative `//authority` path is split into host and remaining
/// path; a host still empty, or equal to `.`, inherits the base's host
/// and port and has its path absolutized against the base's path; and
/// the fragment is cleared.
pub open spec fn spec_resolve(base: UriView, href: Seq<char>) -> Result<
    UriView,
    (UriSection, Seq<char>),
> {
    match spec_parse(crate::html::spec_clean_href(href)) {
        Err(e) => Err(e),
        Ok(u0) => {
            let u1 = if u0.protocol.len() == 0 {
                UriView { protocol: base.protocol, ..u0 }
            } else {
                u0
            };
            let u2 = if u1.host.len() == 0 && u1.path.len() >= 2 && u1.path[0] == '/'
                && u1.path[1] == '/' {
                let k = find_from(u1.path, '/', 2);
                UriView {
                    host: u1.path.subrange(2, k),
                    path: u1.path.subrange(k, u1.path.len() as int),
                    ..u1
                }
            } else {
                u1
            };
            let u3 = if u2.host.len() == 0 || u2.host == seq!['.'] {
                UriView {
                    host: base.host,
                    port: base.port,
                    path: crate::html::spec_absolutize(u2.path, base.path),
                    ..u2
                }
            } else {
                u2
            };
            Ok(UriView { fragment: Seq::<char>::empty(), ..u3 })
        },
    }
}

impl Uri {
    /// Resolve a raw href found on this page into an absolute URI.
    /// Fragment-only and `mailto` hrefs are not special-cased here;
    /// callers filter them first.
    pub fn resolve(&self, href: &str) -> (r: Result<Uri, ParseError>)
        ensures
            match r {
                Ok(u) => spec_resolve(self@, href@) matches Ok(v) && u@ == v,
                Err(e) => spec_resolve(self@, href@) matches Err(err) && e@ == err,
            },
    {
        let cleaned = crate::html::clean_up_href(href);
        let mut u = match Uri::parse(cleaned.as_str()) {
            Ok(u) => u,
            Err(e) => {
                return Err(e);
            },
        };
        let ghost u0 = u@;
        if u.protocol.as_str().is_empty() {
            u.protocol = self.protocol.clone();
        }
        let ghost u1 = u@;
        proof {
            if u0.protocol.len() == 0 {
                assert(u1 =~= (UriView { protocol: self@.protocol, ..u0 }));
            }
        }
        let pn = u.path.as_str().unicode_len();
        if u.host.as_str().is_empty() && pn >= 2 && u.path.as_str().get_char(0) == '/'
            && u.path.as_str().get_char(1) == '/' {
            let k = find_char_from(u.path.as_str(), '/', 2);
            let host2 = u.path.as_str().substring_char(2, k).to_owned();
            let path2 = u.path.as_str().substring_char(k, pn).to_owned();
            u.host = host2;
            u.path = path2;
        }
        let ghost u2 = u@;
        let host_dot = u.host.as_str().unicode_len() == 1 && u.host.as_str().get_char(0) == '.';
        proof {
            if host_dot {
                assert(u2.host =~= seq!['.']);
            } else if u2.host == seq!['.'] {
                assert(u2.host.len() == 1 && u2.host[0] == '.');
            }
        }
        if u.host.as_str().is_empty() || host_dot {
            u.host = self.host.clone();
            u.port = self.port.clone();
            let abs = crate::html::absolutize_path(u.path.as_str(), self.path.as_str());
            u.path = abs;
            proof {
                assert(u@ =~= (UriView {
                    host: self@.host,
                    port: self@.port,
                    path: crate::html::spec_absolutize(u2.path, self@.path),
                    ..u2
                }));
            }
        }
        u.fragment = String::new();
        proof {
            let target = spec_resolve(self@, href@)->Ok_0;
            assert(u@ =~= target);
        }
        Ok(u)
    }

    /// The all-empty URI.
    pub fn new_empty() -> (r: Uri)
        ensures
            r@ == empty_uri(),
    {
        let r = Uri {
            protocol: String::new(),
            host: String::new(),
            port: String::new(),
            path: String::new(),
            query: String::new(),
            fragment: String::new(),
        };
        proof {
            assert(r@ =~= empty_uri());
        }
        r
    }

    /// Divide a raw string into a URI's components and validate them.
    /// The empty string parses to the all-empty URI.
    pub fn parse(s: &str) -> (r: Result<Uri, ParseError>)
        ensures
            match r {
                Ok(u) => spec_parse(s@) matches Ok(v) && u@ == v,
                Err(e) => spec_parse(s@) matches Err(err) && e@ == err,
            },
    {
        let n = s.unicode_len();
        if n == 0 {
            return Ok(Uri::new_empty());
        }
        let cpos = find_char_from(s, ':', 0);
        let qpos = find_char_from(s, '?', 0);
        let fpos = find_char_from(s, '#', 0);
        let qf = if qpos <= fpos {
            qpos
        } else {
            fpos
        };
        proof {
            lemma_find_from_props(s@, ':', 0);
            lemma_find_from_props(s@, '?', 0);
            lemma_find_from_props(s@, '#', 0);
        }
        let query = if qpos < fpos {
            s.substring_char(qpos + 1, fpos).to_owned()
        } else {
            String::new()
        };
        let fragment = if fpos < n {
            s.substring_char(fpos + 1, n).to_owned()
        } else {
            String::new()
        };
        let uri = if cpos < n {
            let has_scheme = n >= 3 && cpos < n - 2 && s.get_char(cpos + 1) == '/' && s.get_char(
                cpos + 2,
            ) == '/';
            let protocol = if has_scheme {
                s.substring_char(0, cpos).to_owned()
            } else {
                String::new()
            };
            let host_start = if has_scheme {
                cpos + 3
            } else {
                0
            };
            let slash = find_char_from(s, '/', host_start);
            let q2 = find_char_from(s, '?', host_start);
            let auth_end = if slash <= q2 {
                slash
            } else {
                q2
            };
            let c2 = find_char_from(s, ':', host_start);
            proof {
                lemma_find_from_props(s@, '/', host_start as int);
                lemma_find_from_props(s@, '?', host_start as int);
                lemma_find_from_props(s@, ':', host_start as int);
            }
            let host_raw = if c2 < auth_end {
                s.substring_char(host_start, c2).to_owned()
            } else {
                s.substring_char(host_start, auth_end).to_owned()
            };
            let port = if c2 < auth_end {
                s.substring_char(c2 + 1, auth_end).to_owned()
            } else {
                String::new()
            };
            let dotted = host_raw.as_str().unicode_len() == 1 && host_raw.as_str().get_char(0)
                == '.';
            proof {
                if dotted {
                    assert(host_raw@ =~= seq!['.']);
                } else {
                    if host_raw@ == seq!['.'] {
                        assert(host_raw@.len() == 1 && host_raw@[0] == '.');
                    }
                }
            }
            let host = if dotted {
                String::new()
            } else {
                host_raw
            };
            let path_start = if dotted && auth_end < n {
                auth_end + 1
            } else {
                auth_end
            };
            let path = if path_start <= qf {
                s.substring_char(path_start, qf).to_owned()
            } else {
                String::new()
            };
            Uri { protocol, host, port, path, query, fragment }
        } else {
            let path = s.substring_char(0, qf).to_owned();
            Uri {
                protocol: String::new(),
                host: String::new(),
                port: String::new(),
                path,
                query,
                fragment,
            }
        };
        proof {
            assert(uri@ =~= raw_parse(s@));
        }
        Uri::validate(uri)
    }

    /// Check each section of an already-divided URI against the allowed
    /// character class.
    fn validate(uri: Uri) -> (r: Result<Uri, ParseError>)
        ensures
            match r {
                Ok(u) => spec_validate(uri@) matches Ok(v) && u@ == v,
                Err(e) => spec_validate(uri@) matches Err(err) && e@ == err,
            },
    {
        if !check_section(uri.host.as_str()) {
            return Err(ParseError { section: UriSection::Host, value: uri.host });
        }
        if !check_section(uri.path.as_str()) {
            return Err(ParseError { section: UriSection::Path, value: uri.path });
        }
        if !check_section(uri.query.as_str()) {
            return Err(ParseError { section: UriSection::Query, value: uri.query });
        }
        if !check_section(uri.fragment.as_str()) {
            return Err(ParseError { section: UriSection::Fragment, value: uri.fragment });
        }
        Ok(uri)
    }

    /// Write this URI back as one string.
    pub fn render(&self) -> (r: String)
        ensures
            r@ == spec_render(self@),
    {
        let mut out = String::new();
        if !self.protocol.as_str().is_empty() || !self.host.as_str().is_empty() {
            out.append(self.protocol.as_str());
            out.append("://");
            out.append(self.host.as_str());
            proof {
                reveal_strlit("://");
                assert("://"@ =~= seq![':', '/', '/']);
            }
            if !self.port.as_str().is_empty() {
                out.append(":");
                out.append(self.port.as_str());
                proof {
                    reveal_strlit(":");
                    assert(":"@ =~= seq![':']);
                }
            }
        }
        out.append(self.path.as_str());
        if !self.query.as_str().is_empty() {
            out.append("?");
            out.append(self.query.as_str());
            proof {
                reveal_strlit("?");
                assert("?"@ =~= seq!['?']);
            }
        }
        if !self.fragment.as_str().is_empty() {
            out.append("#");
            out.append(self.fragment.as_str());
            proof {
                reveal_strlit("#");
                assert("#"@ =~= seq!['#']);
            }
        }
        proof {
            assert(out@ =~= spec_render(self@));
        }
        out
    }

    /// Start building a URI from all-empty components.
    pub fn builder() -> (r: UriBuilder)
        ensures
            r.uri@ == empty_uri(),
    {
        UriBuilder::new()
    }
}

/// No `:` and no `/` anywhere in the text.
pub open spec fn no_reserved(s: Seq<char>) -> bool {
    forall|i: int| 0 <= i < s.len() ==> s[i] != ':' && s[i] != '/'
}

/// The URIs for which rendering is exactly invertible: a protocol or a
/// host present (so the `://` head is written), both free of `:` and `/`,
/// a host other than `.` (that one is normalised away when parsed), a
/// port free of `:` and `/`, a non-empty path starting with `/`, and
/// every validated section within the allowed character class.
pub open spec fn renderable(u: UriView) -> bool {
    &&& u.protocol.len() > 0 || u.host.len() > 0
    &&& valid_section(u.protocol)
    &&& no_reserved(u.protocol)
    &&& valid_section(u.host)
    &&& no_reserved(u.host)
    &&& u.host != seq!['.']
    &&& valid_section(u.port)
    &&& no_reserved(u.port)
    &&& u.path.len() > 0
    &&& u.path[0] == '/'
    &&& valid_section(u.path)
    &&& valid_section(u.query)
    &&& valid_section(u.fragment)
}

/// Round-trip stability: a renderable URI, written out with `render` and
/// read back with `parse`, comes back unchanged.
#[verifier::rlimit(100)]
pub proof fn lemma_render_parse_roundtrip(u: UriView)
    requires
        renderable(u),
    ensures
        spec_parse(spec_render(u)) == Ok::<UriView, (UriSection, Seq<char>)>(u),
{
    let s = spec_render(u);
    let p = u.protocol.len() as int;
    let h = u.host.len() as int;
    let pt = u.port.len() as int;
    let t: int = if pt > 0 {
        1 + pt
    } else {
        0
    };
    let pa = u.path.len() as int;
    let q = u.query.len() as int;
    let qq: int = if q > 0 {
        1 + q
    } else {
        0
    };
    let f = u.fragment.len() as int;
    let ff: int = if f > 0 {
        1 + f
    } else {
        0
    };
    let hs = p + 3;
    let ps = hs + h + t;
    let qp = ps + pa;
    let fp = qp + qq;
    let n = fp + ff;
    assert(s.len() == n);
    // where each character of the rendered string comes from
    assert forall|j: int| 0 <= j < p implies s[j] == u.protocol[j] by {}
    assert(s[p] == ':');
    assert(s[p + 1] == '/');
    assert(s[p + 2] == '/');
    assert forall|j: int| 0 <= j < h implies s[hs + j] == u.host[j] by {}
    if pt > 0 {
        assert(s[hs + h] == ':');
        assert forall|j: int| 0 <= j < pt implies s[hs + h + 1 + j] == u.port[j] by {}
    }
    assert forall|j: int| 0 <= j < pa implies s[ps + j] == u.path[j] by {}
    if q > 0 {
        assert(s[qp] == '?');
        assert forall|j: int| 0 <= j < q implies s[qp + 1 + j] == u.query[j] by {}
    }
    if f > 0 {
        assert(s[fp] == '#');
        assert forall|j: int| 0 <= j < f implies s[fp + 1 + j] == u.fragment[j] by {}
    }
    // no validated section holds '?' or '#', and protocol, host and port
    // hold no ':' or '/'
    assert(allowed_char('?') == false);
    assert(allowed_char('#') == false);
    // the first ':' is the protocol separator
    lemma_find_from_is(s, ':', 0, p);
    let cpos = find_from(s, ':', 0);
    assert(cpos == p);
    // the first '?' is the query separator, if any
    let qpos = find_from(s, '?', 0);
    assert forall|j: int| 0 <= j < qp implies s[j] != '?' by {
        if j < p {
            assert(allowed_char(u.protocol[j]));
        } else if hs <= j < hs + h {
            assert(allowed_char(u.host[j - hs]));
        } else if pt > 0 && hs + h + 1 <= j < ps {
            assert(allowed_char(u.port[j - (hs + h + 1)]));
        } else if ps <= j {
            assert(allowed_char(u.path[j - ps]));
        }
    }
    if q > 0 {
        lemma_find_from_is(s, '?', 0, qp);
        assert(qpos == qp);
    } else {
        assert forall|j: int| qp <= j < n implies s[j] != '?' by {
            if f > 0 && j > fp {
                assert(allowed_char(u.fragment[j - fp - 1]));
            }
        }
        lemma_find_from_is(s, '?', 0, n);
        assert(qpos == n);
    }
    // the first '#' is the fragment separator, if any
    let fpos = find_from(s, '#', 0);
    assert forall|j: int| 0 <= j < fp implies s[j] != '#' by {
        if j < p {
            assert(allowed_char(u.protocol[j]));
        } else if hs <= j < hs + h {
            assert(allowed_char(u.host[j - hs]));
        } else if pt > 0 && hs + h + 1 <= j < ps {
            assert(allowed_char(u.port[j - (hs + h + 1)]));
        } else if ps <= j < qp {
            assert(allowed_char(u.path[j - ps]));
        } else if q > 0 && qp + 1 <= j {
            assert(allowed_char(u.query[j - qp - 1]));
        }
    }
    if f > 0 {
        lemma_find_from_is(s, '#', 0, fp);
        assert(fpos == fp);
    } else {
        lemma_find_from_is(s, '#', 0, n);
        assert(fpos == n);
    }
    // the authority ends at the first '/' after the scheme
    assert forall|j: int| hs <= j < ps implies s[j] != '/' by {
        if j < hs + h {
            assert(u.host[j - hs] != '/');
        } else if pt > 0 && j > hs + h {
            assert(u.port[j - (hs + h + 1)] != '/');
        }
    }
    assert(s[ps] == u.path[0]);
    lemma_find_from_is(s, '/', hs, ps);
    let slash = find_from(s, '/', hs);
    assert(slash == ps);
    let q2 = find_from(s, '?', hs);
    lemma_find_from_props(s, '?', hs);
    assert(q2 >= ps) by {
        if q2 < ps {
            assert(s[q2] == '?');
        }
    }
    let auth_end = if slash <= q2 {
        slash
    } else {
        q2
    };
    assert(auth_end == ps);
    // the port separator, when a port is present
    let c2 = find_from(s, ':', hs);
    if pt > 0 {
        assert forall|j: int| hs <= j < hs + h implies s[j] != ':' by {
            assert(u.host[j - hs] != ':');
        }
        lemma_find_from_is(s, ':', hs, hs + h);
        assert(c2 == hs + h);
        assert(c2 < auth_end);
        assert(s.subrange(hs, c2) =~= u.host);
        assert(s.subrange(c2 + 1, auth_end) =~= u.port);
    } else {
        lemma_find_from_props(s, ':', hs);
        assert(c2 >= ps) by {
            if c2 < ps {
                assert(s[c2] == ':');
                if c2 < hs + h {
                    assert(u.host[c2 - hs] != ':');
                }
            }
        }
        assert(!(c2 < auth_end));
        assert(s.subrange(hs, auth_end) =~= u.host);
    }
    // the scheme is recognised and the host is not the dot form
    assert(cpos < n);
    assert(cpos + 2 < n);
    assert(s.take(p) =~= u.protocol);
    let qf = if qpos <= fpos {
        qpos
    } else {
        fpos
    };
    assert(qf == qp);
    assert(s.subrange(ps, qf) =~= u.path);
    if q > 0 {
        assert(qpos < fpos);
        assert(s.subrange(qpos + 1, fpos) =~= u.query);
    } else {
        assert(!(qpos < fpos));
    }
    if f > 0 {
        assert(s.subrange(fpos + 1, n) =~= u.fragment);
    }
    let r = raw_parse(s);
    assert(r =~= u);
    assert(spec_parse(s) == Ok::<UriView, (UriSection, Seq<char>)>(u));
}

/// Round-trip stability in the other direction: a string that is the
/// rendering of some renderable URI parses successfully, and rendering
/// the parse result gives the string back unchanged.
pub proof fn lemma_parse_render_stable(s: Seq<char>, u: UriView)
    requires
        renderable(u),
        s == spec_render(u),
    ensures
        spec_parse(s) matches Ok(v) && spec_render(v) == s,
{
    lemma_render_parse_roundtrip(u);
}

impl Clone for Uri {
    fn clone(&self) -> (r: Self)
        ensures
            r@ == self@,
            r == *self,
    {
        Uri {
            protocol: self.protocol.clone(),
            host: self.host.clone(),
            port: self.port.clone(),
            path: self.path.clone(),
            query: self.query.clone(),
            fragment: self.fragment.clone(),
        }
    }
}

impl PartialEq for Uri {
    /// Two URIs are equal when all six components are equal.
    fn eq(&self, other: &Self) -> (r: bool) {
        self.protocol == other.protocol && self.host == other.host && self.port == other.port
            && self.path == other.path && self.query == other.query && self.fragment
            == other.fragment
    }
}

impl vstd::std_specs::cmp::PartialEqSpecImpl for Uri {
    open spec fn obeys_eq_spec() -> bool {
        true
    }

    open spec fn eq_spec(&self, other: &Self) -> bool {
        self@ == other@
    }
}

impl core::str::FromStr for Uri {
    type Err = ParseError;

    fn from_str(s: &str) -> Result<Uri, ParseError> {
        Uri::parse(s)
    }
}

/// Incremental construction of a URI, one component at a time.
#[derive(Debug)]
pub struct UriBuilder {
    pub uri: Uri,
}

impl UriBuilder {
    /// A builder holding the all-empty URI.
    pub fn new() -> (r: Self)
        ensures
            r.uri@ == empty_uri(),
    {
        UriBuilder { uri: Uri::new_empty() }
    }

    /// The URI built so far.
    pub fn build(self) -> (r: Uri)
        ensures
            r == self.uri,
    {
        self.uri
    }

    pub fn protocol(self, protocol: &str) -> (r: Self)
        ensures
            r.uri@ == (UriView { protocol: protocol@, ..self.uri@ }),
    {
        let mut b = self;
        b.uri.protocol = protocol.to_owned();
        proof {
            assert(b.uri@ =~= (UriView { protocol: protocol@, ..self.uri@ }));
        }
        b
    }

    pub fn host(self, host: &str) -> (r: Self)
        ensures
            r.uri@ == (UriView { host: host@, ..self.uri@ }),
    {
        let mut b = self;
        b.uri.host = host.to_owned();
        proof {
            assert(b.uri@ =~= (UriView { host: host@, ..self.uri@ }));
        }
        b
    }

    pub fn port(self, port: &str) -> (r: Self)
        ensures
            r.uri@ == (UriView { port: port@, ..self.uri@ }),
    {
        let mut b = self;
        b.uri.port = port.to_owned();
        proof {
            assert(b.uri@ =~= (UriView { port: port@, ..self.uri@ }));
        }
        b
    }

    pub fn path(self, path: &str) -> (r: Self)
        ensures
            r.uri@ == (UriView { path: path@, ..self.uri@ }),
    {
        let mut b = self;
        b.uri.path = path.to_owned();
        proof {
            assert(b.uri@ =~= (UriView { path: path@, ..self.uri@ }));
        }
        b
    }

    pub fn query(self, query: &str) -> (r: Self)
        ensures
            r.uri@ == (UriView { query: query@, ..self.uri@ }),
    {
        let mut b = self;
        b.uri.query = query.to_owned();
        proof {
            assert(b.uri@ =~= (UriView { query: query@, ..self.uri@ }));
        }
        b
    }

    pub fn fragment(self, fragment: &str) -> (r: Self)
        ensures
            r.uri@ == (UriView { fragment: fragment@, ..self.uri@ }),
    {
        let mut b = self;
        b.uri.fragment = fragment.to_owned();
        proof {
            assert(b.uri@ =~= (UriView { fragment: fragment@, ..self.uri@ }));
        }
        b
    }
}

} // verus!
