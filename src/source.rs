use vstd::prelude::*;
use crate::errors::Error;
use crate::manifest::chars_of;

verus! {

/// Where a package's manifest and files are fetched from.
#[derive(Debug)]
pub enum RootPath {
    /// A local directory.
    Local(String),
    /// A base URL that ends in `/`.
    Remote(String),
}

pub enum RootView {
    Local(Seq<char>),
    Remote(Seq<char>),
}

impl View for RootPath {
    type V = RootView;

    open spec fn view(&self) -> RootView {
        match self {
            RootPath::Local(p) => RootView::Local(p@),
            RootPath::Remote(u) => RootView::Remote(u@),
        }
    }
}

/// The host that `owner/repo` shorthands expand against by default.
pub open spec fn default_host() -> Seq<char> {
    "raw.githubusercontent.com"@
}

pub fn default_host_name() -> (r: String)
    ensures
        r@ == default_host(),
{
    proof {
        reveal_strlit("raw.githubusercontent.com");
    }
    String::from_str("raw.githubusercontent.com")
}

/// A blank line or a comment names no package.
pub open spec fn is_skipped(l: Seq<char>) -> bool {
    l.len() == 0 || l[0] == '#'
}

pub open spec fn is_https(l: Seq<char>) -> bool {
    l.len() >= 8 && l.take(8) == "https://"@
}

/// `u`, followed by `/` unless it already ends in one.
pub open spec fn with_slash(u: Seq<char>) -> Seq<char> {
    if u.len() > 0 && u.last() == '/' {
        u
    } else {
        u.push('/')
    }
}

/// `l` is `owner/repo`, split at `k`: one `/`, with text on both sides.
pub open spec fn shorthand_at(l: Seq<char>, k: int) -> bool {
    &&& 0 < k < l.len() - 1
    &&& l[k] == '/'
    &&& forall|j: int| 0 <= j < l.len() && j != k ==> #[trigger] l[j] != '/'
}

/// The base URL of the package `repo` of `owner` on `host`.
pub open spec fn shorthand_url(host: Seq<char>, owner: Seq<char>, repo: Seq<char>) -> Seq<char> {
    "https://"@ + host + "/"@ + owner + "/godot-packages/master/"@ + repo + "/"@
}

/// What a reference line names: `None` for a skipped line, `Some(None)` for
/// a line that names no origin, else the origin.
pub open spec fn resolution(l: Seq<char>, host: Seq<char>) -> Option<Option<RootView>> {
    if is_skipped(l) {
        None
    } else if l[0] == '/' {
        Some(Some(RootView::Local(l)))
    } else if is_https(l) {
        Some(Some(RootView::Remote(with_slash(l))))
    } else if exists|k: int| shorthand_at(l, k) {
        let k = choose|k: int| shorthand_at(l, k);
        Some(Some(RootView::Remote(shorthand_url(host, l.take(k), l.skip(k + 1)))))
    } else {
        Some(None)
    }
}

pub open spec fn resolved_view(r: Option<Result<RootPath, Error>>) -> Option<Option<RootView>> {
    match r {
        None => None,
        Some(Ok(p)) => Some(Some(p@)),
        Some(Err(_)) => Some(None),
    }
}

fn append_literal(s: &mut String, lit: &str)
    ensures
        final(s)@ == old(s)@ + lit@,
{
    s.append(lit);
}

/// Resolves one trimmed reference line to an origin, expanding `owner/repo`
/// shorthands against `host`.
pub fn resolve(line: &str, host: &str) -> (r: Option<Result<RootPath, Error>>)
    ensures
        resolved_view(r) == resolution(line@, host@),
        r matches Some(Err(e)) ==> (e matches Error::InvalidReference(s) && s@ == line@),
{
    let v = chars_of(line);
    let n: usize = v.len();
    if n == 0 || v[0] == '#' {
        return None;
    }
    if v[0] == '/' {
        return Some(Ok(RootPath::Local(String::from_str(line))));
    }
    proof {
        reveal_strlit("https://");
    }
    let https = chars_of("https://");
    assert(https@.len() == 8);
    let mut is_url = n >= 8;
    let mut i: usize = 0;
    while is_url && i < 8
        invariant
            https@ == "https://"@,
            https@.len() == 8,
            v@ == line@,
            n == v@.len(),
            i <= 8,
            is_url ==> n >= 8 && forall|j: int| 0 <= j < i ==> v@[j] == https@[j],
            !is_url ==> !is_https(line@),
        decreases 8 - i + (if is_url { 1int } else { 0 }),
    {
        if v[i] != https[i] {
            assert(line@.take(8)[i as int] != "https://"@[i as int]);
            is_url = false;
        } else {
            i = i + 1;
        }
    }
    if is_url {
        assert(line@.take(8) =~= "https://"@);
        let mut u = String::from_str(line);
        if v[n - 1] != '/' {
            u.append("/");
            proof {
                reveal_strlit("/");
            }
            assert(u@ =~= line@.push('/'));
        }
        return Some(Ok(RootPath::Remote(u)));
    }
    assert(!is_https(line@));
    // find the slashes
    let mut slash: Option<usize> = None;
    let mut unique = true;
    let mut j: usize = 0;
    while j < n
        invariant
            v@ == line@,
            n == v@.len(),
            j <= n,
            match slash {
                None => forall|t: int| 0 <= t < j ==> #[trigger] v@[t] != '/',
                Some(k) => k < j && v@[k as int] == '/' && (unique ==> forall|t: int|
                    0 <= t < j && t != k ==> #[trigger] v@[t] != '/'),
            },
            !unique ==> slash is Some && forall|k: int| !shorthand_at(line@, k),
        decreases n - j,
    {
        if v[j] == '/' {
            match slash {
                None => {
                    slash = Some(j);
                },
                Some(k) => {
                    unique = false;
                    assert forall|k2: int| !shorthand_at(line@, k2) by {
                        if shorthand_at(line@, k2) {
                            assert(line@[k as int] == '/' && line@[j as int] == '/');
                        }
                    }
                },
            }
        }
        j = j + 1;
    }
    match slash {
        Some(k) => {
            if unique && k > 0 && k < n - 1 {
                assert(shorthand_at(line@, k as int));
                assert forall|k2: int| shorthand_at(line@, k2) implies k2 == k by {
                    if k2 != k {
                        assert(line@[k2] == '/');
                    }
                }
                let owner = line.substring_char(0, k);
                let repo = line.substring_char(k + 1, n);
                let mut u = String::from_str("https://");
                append_literal(&mut u, host);
                append_literal(&mut u, "/");
                append_literal(&mut u, owner);
                append_literal(&mut u, "/godot-packages/master/");
                append_literal(&mut u, repo);
                append_literal(&mut u, "/");
                proof {
                    reveal_strlit("/");
                    reveal_strlit("/godot-packages/master/");
                }
                assert(u@ =~= shorthand_url(host@, line@.take(k as int), line@.skip(k + 1)));
                return Some(Ok(RootPath::Remote(u)));
            }
            Some(Err(Error::InvalidReference(String::from_str(line))))
        },
        None => {
            Some(Err(Error::InvalidReference(String::from_str(line))))
        },
    }
}

/// The name of the manifest file inside a package.
pub open spec fn manifest_file() -> Seq<char> {
    "manifest.toml"@
}

pub fn manifest_file_name() -> (r: String)
    ensures
        r@ == manifest_file(),
{
    proof {
        reveal_strlit("manifest.toml");
    }
    String::from_str("manifest.toml")
}

/// The root path or base URL of an origin.
pub open spec fn root_text(r: RootView) -> Seq<char> {
    match r {
        RootView::Local(p) => p,
        RootView::Remote(u) => u,
    }
}

impl RootPath {
    /// The root path or base URL itself.
    pub fn base(&self) -> (r: &str)
        ensures
            r@ == root_text(self@),
    {
        match self {
            RootPath::Local(p) => p.as_str(),
            RootPath::Remote(u) => u.as_str(),
        }
    }

    /// Where the file `file` of the package lies: the root, a `/` unless it
    /// already ends in one, then the file.
    pub fn location(&self, file: &str) -> (r: String)
        ensures
            r@ == with_slash(root_text(self@)) + file@,
    {
        let b = self.base();
        let mut r = String::from_str(b);
        let n: usize = b.unicode_len();
        if n == 0 || b.get_char(n - 1) != '/' {
            proof {
                reveal_strlit("/");
            }
            append_literal(&mut r, "/");
        }
        append_literal(&mut r, file);
        r
    }
}

/// What an HTTP status means for the fetch of `fragment`: success for 2xx,
/// `FileNotFound` for 404, `InvalidResponse` for anything else.
pub fn check_status(status: u16, fragment: &str) -> (r: Result<(), Error>)
    ensures
        200 <= status <= 299 ==> r is Ok,
        status == 404 ==> (r matches Err(Error::FileNotFound(f)) && f@ == fragment@),
        !(200 <= status <= 299) && status != 404 ==> r matches Err(Error::InvalidResponse),
{
    if 200 <= status && status <= 299 {
        Ok(())
    } else if status == 404 {
        Err(Error::FileNotFound(String::from_str(fragment)))
    } else {
        Err(Error::InvalidResponse)
    }
}

/// What `str::trim` makes of a text.
pub uninterp spec fn trim_of(s: Seq<char>) -> Seq<char>;

/// Relies on str::trim: leading and trailing white space removed, a result
/// that depends on the characters alone.
#[verifier::external_body]
fn trimmed(s: &str) -> (r: String)
    ensures
        r@ == trim_of(s@),
{
    s.trim().to_string()
}

/// The pieces of `s` between the `sep` characters, in order (one more piece
/// than there are separators).
pub open spec fn split_on(s: Seq<char>, sep: char) -> Seq<Seq<char>>
    decreases s.len(),
{
    if s.len() == 0 {
        seq![Seq::empty()]
    } else {
        let init = split_on(s.drop_last(), sep);
        if s.last() == sep {
            init.push(Seq::empty())
        } else {
            init.update(init.len() - 1, init.last().push(s.last()))
        }
    }
}

/// The reference lines of a requirements text: the trimmed text split at
/// line breaks, each line trimmed.
pub open spec fn reference_lines_of(data: Seq<char>) -> Seq<Seq<char>> {
    split_on(trim_of(data), '\n').map_values(|l: Seq<char>| trim_of(l))
}

/// Splits a requirements text into trimmed reference lines.
pub fn reference_lines(data: &str) -> (r: Vec<String>)
    ensures
        r@.map_values(|l: String| l@) == reference_lines_of(data@),
{
    let t = trimmed(data);
    let v = chars_of(t.as_str());
    let ghost ts = t@;
    let mut pieces: Vec<String> = Vec::new();
    let mut cur = String::new();
    let mut i: usize = 0;
    while i < v.len()
        invariant
            v@ == ts,
            t@ == ts,
            i <= v@.len(),
            pieces@.map_values(|l: String| l@).push(cur@) == split_on(ts.take(i as int), '\n'),
        decreases v@.len() - i,
    {
        let c = v[i];
        let ghost before = pieces@.map_values(|l: String| l@).push(cur@);
        assert(ts.take(i + 1).drop_last() =~= ts.take(i as int));
        assert(ts.take(i + 1).last() == c);
        if c == '\n' {
            pieces.push(cur);
            cur = String::new();
            assert(pieces@.map_values(|l: String| l@).push(cur@) =~= before.push(Seq::empty()));
        } else {
            let ghost old_cur = cur@;
            let one = t.as_str().substring_char(i, i + 1);
            assert(one@ =~= seq![c]);
            cur.append(one);
            assert(cur@ =~= old_cur.push(c));
            assert(before.last() == old_cur);
            assert(pieces@.map_values(|l: String| l@).push(cur@) =~= before.update(
                before.len() - 1,
                before.last().push(c),
            ));
        }
        i = i + 1;
    }
    pieces.push(cur);
    assert(ts.take(v@.len() as int) =~= ts);
    let ghost raw = pieces@.map_values(|l: String| l@);
    let mut r: Vec<String> = Vec::new();
    let mut j: usize = 0;
    while j < pieces.len()
        invariant
            raw == pieces@.map_values(|l: String| l@),
            raw == split_on(ts, '\n'),
            j <= pieces@.len(),
            r@.len() == j,
            forall|k: int| 0 <= k < j ==> (#[trigger] r@[k])@ == trim_of(raw[k]),
        decreases pieces@.len() - j,
    {
        r.push(trimmed(pieces[j].as_str()));
        j = j + 1;
    }
    assert(r@.map_values(|l: String| l@) =~= reference_lines_of(data@));
    r
}

} // verus!
