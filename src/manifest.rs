use vstd::prelude::*;

verus! {

/// ASCII letter or digit.
pub open spec fn is_alnum(c: char) -> bool {
    ('a' <= c && c <= 'z') || ('A' <= c && c <= 'Z') || ('0' <= c && c <= '9')
}

/// A character allowed after the first one of a package name.
pub open spec fn is_name_char(c: char) -> bool {
    is_alnum(c) || c == '-' || c == '_'
}

/// A package name: one ASCII letter or digit, then letters, digits, `-` or `_`.
pub open spec fn valid_name(s: Seq<char>) -> bool {
    &&& s.len() > 0
    &&& is_alnum(s[0])
    &&& forall|i: int| 1 <= i < s.len() ==> is_name_char(#[trigger] s[i])
}

/// The regular expression that describes `valid_name`.
pub open spec fn name_pattern() -> Seq<char> {
    "^[a-zA-Z0-9]+[a-zA-Z0-9\\-_]*$"@
}

/// Relies on regex::Regex::new and regex::Regex::is_match: with the name
/// pattern (anchored at both ends of the haystack, ASCII classes only) the
/// haystack matches exactly when it is a `valid_name`.
#[verifier::external_body]
fn pattern_matches(pattern: &str, haystack: &str) -> (r: bool)
    requires
        pattern@ == name_pattern(),
    ensures
        r == valid_name(haystack@),
{
    match regex::Regex::new(pattern) {
        Ok(re) => re.is_match(haystack),
        Err(_) => false,
    }
}

/// The contents of a manifest, as plain sequences.
pub struct PackageView {
    pub name: Seq<char>,
    pub description: Seq<char>,
    pub usage: Seq<char>,
    pub version: Seq<char>,
    pub files: Seq<Seq<char>>,
}

/// The views of a list of strings.
pub open spec fn strings_view(v: Seq<String>) -> Seq<Seq<char>> {
    v.map_values(|s: String| s@)
}

pub open spec fn is_digit(c: char) -> bool {
    '0' <= c && c <= '9'
}

pub open spec fn is_sign(c: char) -> bool {
    c == '+' || c == '-'
}

pub open spec fn all_digits(s: Seq<char>) -> bool {
    forall|i: int| 0 <= i < s.len() ==> is_digit(#[trigger] s[i])
}

/// `c` is the lower-case ASCII letter `l` in either case.
pub open spec fn same_letter(c: char, l: char) -> bool {
    c == l || c as u32 + 32 == l as u32
}

/// `s` spells the lower-case ASCII word `w`, ignoring case.
pub open spec fn spells(s: Seq<char>, w: Seq<char>) -> bool {
    s.len() == w.len() && forall|i: int| 0 <= i < s.len() ==> same_letter(#[trigger] s[i], w[i])
}

/// Digits with at most one decimal point, holding at least one digit
/// (`7`, `7.`, `.5`, `1.25`).
pub open spec fn is_mantissa(m: Seq<char>) -> bool {
    &&& forall|i: int| 0 <= i < m.len() ==> is_digit(#[trigger] m[i]) || m[i] == '.'
    &&& forall|i: int, j: int| 0 <= i < m.len() && 0 <= j < m.len() && m[i] == '.' && m[j] == '.' ==> i == j
    &&& exists|i: int| 0 <= i < m.len() && is_digit(#[trigger] m[i])
}

/// An exponent: `e` or `E`, an optional sign, then one or more digits.
pub open spec fn is_exponent(e: Seq<char>) -> bool {
    &&& e.len() >= 2
    &&& (e[0] == 'e' || e[0] == 'E')
    &&& if is_sign(e[1]) {
        e.len() >= 3 && all_digits(e.skip(2))
    } else {
        all_digits(e.skip(1))
    }
}

/// A decimal number: a mantissa, optionally followed by an exponent.
pub open spec fn is_number(s: Seq<char>) -> bool {
    is_mantissa(s) || exists|k: int| 0 <= k < s.len() && is_mantissa(s.take(k)) && is_exponent(#[trigger] s.skip(k))
}

/// The words that name an infinity or a NaN.
pub open spec fn is_special(s: Seq<char>) -> bool {
    spells(s, seq!['i', 'n', 'f']) || spells(s, seq!['i', 'n', 'f', 'i', 'n', 'i', 't', 'y'])
        || spells(s, seq!['n', 'a', 'n'])
}

/// The text that Rust's float parser accepts: an optional sign, then a decimal
/// number or one of `inf`, `infinity`, `nan` in any case.
pub open spec fn float_syntax(s: Seq<char>) -> bool {
    is_special(unsigned_part(s)) || is_number(unsigned_part(s))
}

/// `s` without its leading sign, if any.
pub open spec fn unsigned_part(s: Seq<char>) -> Seq<char> {
    if s.len() > 0 && is_sign(s[0]) {
        s.skip(1)
    } else {
        s
    }
}

/// A manifest is valid when its name is a `valid_name` and its version is a
/// floating-point number.
pub open spec fn manifest_valid(p: PackageView) -> bool {
    valid_name(p.name) && float_syntax(p.version)
}

/// The characters of `s`, one per element.
pub(crate) fn chars_of(s: &str) -> (r: Vec<char>)
    ensures
        r@ == s@,
{
    let n: usize = s.unicode_len();
    let mut r: Vec<char> = Vec::new();
    let mut i: usize = 0;
    while i < n
        invariant
            n == s@.len(),
            i <= n,
            r@ == s@.take(i as int),
        decreases n - i,
    {
        r.push(s.get_char(i));
        i = i + 1;
        assert(r@ =~= s@.take(i as int));
    }
    assert(r@ =~= s@);
    r
}

fn digits_ok(v: &Vec<char>, lo: usize, hi: usize) -> (r: bool)
    requires
        lo <= hi <= v@.len(),
    ensures
        r == all_digits(v@.subrange(lo as int, hi as int)),
{
    let mut i: usize = lo;
    while i < hi
        invariant
            lo <= i <= hi <= v@.len(),
            all_digits(v@.subrange(lo as int, i as int)),
        decreases hi - i,
    {
        if !('0' <= v[i] && v[i] <= '9') {
            assert(!is_digit(v@.subrange(lo as int, hi as int)[i - lo]));
            return false;
        }
        i = i + 1;
        assert forall|j: int| 0 <= j < v@.subrange(lo as int, i as int).len() implies is_digit(
            #[trigger] v@.subrange(lo as int, i as int)[j],
        ) by {
            if j < i - 1 - lo {
                assert(v@.subrange(lo as int, i - 1)[j] == v@[lo + j]);
            }
        }
    }
    true
}

fn mantissa_ok(v: &Vec<char>, lo: usize, hi: usize) -> (r: bool)
    requires
        lo <= hi <= v@.len(),
    ensures
        r == is_mantissa(v@.subrange(lo as int, hi as int)),
{
    let ghost m = v@.subrange(lo as int, hi as int);
    let mut dot: Option<usize> = None;
    let mut digit: Option<usize> = None;
    let mut i: usize = lo;
    while i < hi
        invariant
            lo <= i <= hi <= v@.len(),
            m == v@.subrange(lo as int, hi as int),
            forall|j: int| lo <= j < i ==> is_digit(#[trigger] v@[j]) || v@[j] == '.',
            match dot {
                None => forall|j: int| lo <= j < i ==> #[trigger] v@[j] != '.',
                Some(d) => lo <= d < i && v@[d as int] == '.' && forall|j: int|
                    lo <= j < i && #[trigger] v@[j] == '.' ==> j == d,
            },
            match digit {
                None => forall|j: int| lo <= j < i ==> !is_digit(#[trigger] v@[j]),
                Some(d) => lo <= d < i && is_digit(v@[d as int]),
            },
        decreases hi - i,
    {
        let c = v[i];
        if '0' <= c && c <= '9' {
            digit = Some(i);
        } else if c == '.' {
            if let Some(d) = dot {
                assert(m[d - lo] == '.' && m[i - lo] == '.');
                return false;
            }
            dot = Some(i);
        } else {
            assert(!(is_digit(m[i - lo]) || m[i - lo] == '.'));
            return false;
        }
        i = i + 1;
    }
    match digit {
        Some(d) => {
            assert(is_digit(m[d - lo]));
            assert forall|a: int, b: int|
                0 <= a < m.len() && 0 <= b < m.len() && m[a] == '.' && m[b] == '.' implies a == b by {
                assert(v@[lo + a] == '.' && v@[lo + b] == '.');
            }
            assert forall|j: int| 0 <= j < m.len() implies is_digit(#[trigger] m[j]) || m[j] == '.' by {
                assert(m[j] == v@[lo + j]);
            }
            true
        },
        None => {
            assert forall|j: int| 0 <= j < m.len() implies !is_digit(#[trigger] m[j]) by {
                assert(m[j] == v@[lo + j]);
            }
            false
        },
    }
}

fn exponent_ok(v: &Vec<char>, lo: usize, hi: usize) -> (r: bool)
    requires
        lo <= hi <= v@.len(),
    ensures
        r == is_exponent(v@.subrange(lo as int, hi as int)),
{
    let ghost e = v@.subrange(lo as int, hi as int);
    if hi - lo < 2 || !(v[lo] == 'e' || v[lo] == 'E') {
        return false;
    }
    if v[lo + 1] == '+' || v[lo + 1] == '-' {
        assert(e.skip(2) =~= v@.subrange(lo + 2, hi as int));
        hi - lo >= 3 && digits_ok(v, lo + 2, hi)
    } else {
        assert(e.skip(1) =~= v@.subrange(lo + 1, hi as int));
        digits_ok(v, lo + 1, hi)
    }
}

fn spells_ok(v: &Vec<char>, lo: usize, hi: usize, w: &Vec<char>) -> (r: bool)
    requires
        lo <= hi <= v@.len(),
    ensures
        r == spells(v@.subrange(lo as int, hi as int), w@),
{
    let ghost s = v@.subrange(lo as int, hi as int);
    if hi - lo != w.len() {
        return false;
    }
    let mut i: usize = 0;
    while i < w.len()
        invariant
            lo <= hi <= v@.len(),
            s == v@.subrange(lo as int, hi as int),
            s.len() == w@.len(),
            i <= w@.len(),
            forall|j: int| 0 <= j < i ==> same_letter(#[trigger] s[j], w@[j]),
        decreases w@.len() - i,
    {
        let c = v[lo + i];
        let l = w[i];
        if !(c == l || (c as u32) as u64 + 32 == (l as u32) as u64) {
            assert(!same_letter(s[i as int], w@[i as int]));
            return false;
        }
        i = i + 1;
    }
    true
}

/// Decides `is_number` on `v[lo..hi]`: the exponent, if any, starts at the
/// first `e` or `E`.
fn number_ok(v: &Vec<char>, lo: usize, hi: usize) -> (r: bool)
    requires
        lo <= hi <= v@.len(),
    ensures
        r == is_number(v@.subrange(lo as int, hi as int)),
{
    let ghost s = v@.subrange(lo as int, hi as int);
    let mut k: usize = lo;
    while k < hi && !(v[k] == 'e' || v[k] == 'E')
        invariant
            lo <= k <= hi <= v@.len(),
            forall|j: int| lo <= j < k ==> #[trigger] v@[j] != 'e' && v@[j] != 'E',
        decreases hi - k,
    {
        k = k + 1;
    }
    if k == hi {
        assert forall|j: int| 0 <= j < s.len() implies !is_exponent(#[trigger] s.skip(j)) by {
            assert(s.skip(j)[0] == v@[lo + j]);
        }
        mantissa_ok(v, lo, hi)
    } else {
        let ghost kk = k - lo;
        assert(!(is_digit(s[kk]) || s[kk] == '.'));
        assert(s.take(kk) =~= v@.subrange(lo as int, k as int));
        assert(s.skip(kk) =~= v@.subrange(k as int, hi as int));
        assert forall|j: int| 0 <= j < s.len() && j != kk && is_mantissa(s.take(j)) implies !is_exponent(
            #[trigger] s.skip(j),
        ) by {
            if j > kk {
                assert(s.take(j)[kk] == s[kk]);
            } else {
                assert(s.skip(j)[0] == v@[lo + j]);
            }
        }
        let r = mantissa_ok(v, lo, k) && exponent_ok(v, k, hi);
        assert(r ==> is_mantissa(s.take(kk)) && is_exponent(s.skip(kk)));
        r
    }
}

/// Decides `float_syntax`.
pub fn is_float_text(text: &str) -> (r: bool)
    ensures
        r == float_syntax(text@),
{
    let v = chars_of(text);
    let n: usize = v.len();
    let lo: usize = if n > 0 && (v[0] == '+' || v[0] == '-') { 1 } else { 0 };
    assert(v@.subrange(lo as int, n as int) =~= unsigned_part(v@));
    let inf = vec!['i', 'n', 'f'];
    let infinity = vec!['i', 'n', 'f', 'i', 'n', 'i', 't', 'y'];
    let nan = vec!['n', 'a', 'n'];
    assert(inf@ =~= seq!['i', 'n', 'f']);
    assert(infinity@ =~= seq!['i', 'n', 'f', 'i', 'n', 'i', 't', 'y']);
    assert(nan@ =~= seq!['n', 'a', 'n']);
    spells_ok(&v, lo, n, &inf) || spells_ok(&v, lo, n, &infinity) || spells_ok(&v, lo, n, &nan)
        || number_ok(&v, lo, n)
}

/// What `str::to_lowercase` makes of a text.
pub uninterp spec fn lower_of(s: Seq<char>) -> Seq<char>;

/// Relies on str::to_lowercase, whose result depends on the characters alone.
#[verifier::external_body]
fn lowercase(s: &str) -> (r: String)
    ensures
        r@ == lower_of(s@),
{
    s.to_lowercase()
}

/// Where a package is installed: `./pack/` followed by its lower-case name.
pub open spec fn destination_of(p: PackageView) -> Seq<char> {
    "./pack/"@ + lower_of(p.name)
}

/// Names holding a space or starting with `-` or `_` are rejected, and so
/// are versions without a digit, unless they name an infinity or a NaN.
pub proof fn lemma_is_valid_rejects(p: PackageView)
    ensures
        (exists|i: int| 0 <= i < p.name.len() && #[trigger] p.name[i] == ' ') ==> !manifest_valid(p),
        p.name.len() > 0 && (p.name[0] == '-' || p.name[0] == '_') ==> !manifest_valid(p),
        (forall|i: int| 0 <= i < p.version.len() ==> !is_digit(#[trigger] p.version[i]))
            && !is_special(unsigned_part(p.version)) ==> !manifest_valid(p),
{
    let v = p.version;
    let b = unsigned_part(v);
    if forall|i: int| 0 <= i < v.len() ==> !is_digit(#[trigger] v[i]) {
        assert forall|i: int| 0 <= i < b.len() implies !is_digit(#[trigger] b[i]) by {
            if v.len() > 0 && is_sign(v[0]) {
                assert(b[i] == v[i + 1]);
            } else {
                assert(b[i] == v[i]);
            }
        }
        if is_number(b) {
            if !is_mantissa(b) {
                let k = choose|k: int| 0 <= k < b.len() && is_mantissa(b.take(k)) && is_exponent(#[trigger] b.skip(k));
                let i = choose|i: int| 0 <= i < b.take(k).len() && is_digit(#[trigger] b.take(k)[i]);
                assert(b.take(k)[i] == b[i]);
            } else {
                let i = choose|i: int| 0 <= i < b.len() && is_digit(#[trigger] b[i]);
            }
        }
    }
}

/// A package manifest.
#[derive(Debug)]
pub struct Package {
    name: String,
    description: String,
    usage: String,
    version: String,
    files: Vec<String>,
}

impl View for Package {
    type V = PackageView;

    closed spec fn view(&self) -> PackageView {
        PackageView {
            name: self.name@,
            description: self.description@,
            usage: self.usage@,
            version: self.version@,
            files: strings_view(self.files@),
        }
    }
}

impl Package {
    pub fn new(
        name: String,
        description: String,
        usage: String,
        version: String,
        files: Vec<String>,
    ) -> (r: Package)
        ensures
            r@ == (PackageView {
                name: name@,
                description: description@,
                usage: usage@,
                version: version@,
                files: strings_view(files@),
            }),
    {
        Package { name, description, usage, version, files }
    }

    pub fn name(&self) -> (r: &str)
        ensures
            r@ == self@.name,
    {
        self.name.as_str()
    }

    pub fn is_valid(&self) -> (r: bool)
        ensures
            r == manifest_valid(self@),
    {
        let pattern: &str = "^[a-zA-Z0-9]+[a-zA-Z0-9\\-_]*$";
        proof {
            reveal_strlit("^[a-zA-Z0-9]+[a-zA-Z0-9\\-_]*$");
        }
        pattern_matches(pattern, self.name.as_str()) && is_float_text(self.version.as_str())
    }

    /// The name in lower case: the directory key of the package.
    pub fn safe_name(&self) -> (r: String)
        ensures
            r@ == lower_of(self@.name),
    {
        lowercase(self.name.as_str())
    }

    /// The directory the package is installed into: `./pack/<safe name>`.
    pub fn destination(&self) -> (r: String)
        ensures
            r@ == destination_of(self@),
    {
        let mut d = String::from_str("./pack/");
        proof {
            reveal_strlit("./pack/");
        }
        let lower = self.safe_name();
        d.append(lower.as_str());
        d
    }

    pub fn files(&self) -> (r: &Vec<String>)
        ensures
            strings_view(r@) == self@.files,
    {
        &self.files
    }

    pub fn version(&self) -> (r: &str)
        ensures
            r@ == self@.version,
    {
        self.version.as_str()
    }

    pub fn description(&self) -> (r: &str)
        ensures
            r@ == self@.description,
    {
        self.description.as_str()
    }

    pub fn usage(&self) -> (r: &str)
        ensures
            r@ == self@.usage,
    {
        self.usage.as_str()
    }
}

} // verus!
