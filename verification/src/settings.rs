use vstd::prelude::*;
use crate::error::Error;

verus! {

/// Relies on std's `String::push`: appends the given character to the end of
/// the string.
pub assume_specification[ String::push ](s: &mut String, ch: char)
    ensures
        final(s)@ == old(s)@.push(ch),
;

/// The persisted configuration: the library's display name and the id of the
/// camera used for scanning.
#[derive(Debug, PartialEq, Eq)]
pub struct Settings {
    pub library_name: String,
    pub camera_device_id: String,
}

impl Clone for Settings {
    fn clone(&self) -> (res: Self)
        ensures
            res == *self,
    {
        Settings {
            library_name: self.library_name.clone(),
            camera_device_id: self.camera_device_id.clone(),
        }
    }
}

impl Default for Settings {
    /// The first-run configuration: "Librarie" as the library name and no
    /// camera device.
    fn default() -> (r: Self)
        ensures
            r.library_name@ == "Librarie"@,
            r.camera_device_id@ == Seq::<char>::empty(),
    {
        Settings {
            library_name: String::from_str("Librarie"),
            camera_device_id: String::new(),
        }
    }
}

// ---------------------------------------------------------------------------
// The settings document: a two-line key/value text, each value a quoted
// string in which backslash and double quote carry a preceding backslash.
// ---------------------------------------------------------------------------

/// The escaped body of a quoted value.
pub open spec fn spec_escape(s: Seq<char>) -> Seq<char>
    decreases s.len(),
{
    if s.len() == 0 {
        Seq::empty()
    } else {
        (if s[0] == '\\' || s[0] == '"' {
            seq!['\\', s[0]]
        } else {
            seq![s[0]]
        }) + spec_escape(s.drop_first())
    }
}

/// The document a settings value is stored as.
pub open spec fn spec_settings_doc(s: Settings) -> Seq<char> {
    "libraryName = \""@ + spec_escape(s.library_name@) + seq!['"', '\n']
        + "cameraDeviceId = \""@ + spec_escape(s.camera_device_id@) + seq!['"', '\n']
}

/// Reading a quoted value body: the value's characters and how many document
/// characters they spanned, counting the closing quote; `None` when the text
/// is not a terminated, well-escaped body.
pub open spec fn spec_scan_quoted(s: Seq<char>) -> Option<(Seq<char>, int)>
    decreases s.len(),
{
    if s.len() == 0 {
        None
    } else if s[0] == '"' {
        Some((Seq::empty(), 1))
    } else if s[0] == '\\' {
        if s.len() < 2 || !(s[1] == '\\' || s[1] == '"') {
            None
        } else {
            match spec_scan_quoted(s.skip(2)) {
                Some(p) => Some((seq![s[1]] + p.0, p.1 + 2)),
                None => None,
            }
        }
    } else {
        match spec_scan_quoted(s.skip(1)) {
            Some(p) => Some((seq![s[0]] + p.0, p.1 + 1)),
            None => None,
        }
    }
}

/// What parsing a settings document yields: the two raw values, or `None`
/// when the text is not a settings document.
pub open spec fn spec_parse_settings(s: Seq<char>) -> Option<(Seq<char>, Seq<char>)> {
    let p1 = "libraryName = \""@;
    let p2 = "cameraDeviceId = \""@;
    if s.len() < p1.len() || s.subrange(0, p1.len() as int) != p1 {
        None
    } else {
        match spec_scan_quoted(s.skip(p1.len() as int)) {
            None => None,
            Some(q1) => {
                let rest = s.skip(p1.len() + q1.1);
                if rest.len() < 1 + p2.len() || rest[0] != '\n' || rest.subrange(
                    1,
                    1 + p2.len() as int,
                ) != p2 {
                    None
                } else {
                    match spec_scan_quoted(rest.skip(1 + p2.len() as int)) {
                        None => None,
                        Some(q2) => {
                            let tail = rest.skip(1 + p2.len() + q2.1);
                            if tail.len() == 0 || (tail.len() == 1 && tail[0] == '\n') {
                                Some((q1.0, q2.0))
                            } else {
                                None
                            }
                        },
                    }
                }
            },
        }
    }
}

/// The escaped form of one character.
proof fn lemma_escape_single(c: char)
    ensures
        spec_escape(seq![c]) == if c == '\\' || c == '"' {
            seq!['\\', c]
        } else {
            seq![c]
        },
{
    reveal_with_fuel(spec_escape, 2);
    assert(seq![c].drop_first() =~= Seq::<char>::empty());
    if c == '\\' || c == '"' {
        assert(spec_escape(seq![c]) =~= seq!['\\', c]);
    } else {
        assert(spec_escape(seq![c]) =~= seq![c]);
    }
}

/// Escaping distributes over concatenation.
proof fn lemma_escape_append(a: Seq<char>, b: Seq<char>)
    ensures
        spec_escape(a + b) == spec_escape(a) + spec_escape(b),
    decreases a.len(),
{
    if a.len() == 0 {
        assert(a + b =~= b);
        assert(spec_escape(a) + spec_escape(b) =~= spec_escape(b));
    } else {
        assert((a + b).drop_first() =~= a.drop_first() + b);
        assert((a + b)[0] == a[0]);
        lemma_escape_append(a.drop_first(), b);
        assert(spec_escape(a + b) =~= spec_escape(a) + spec_escape(b));
    }
}

/// Scanning an escaped body followed by its closing quote recovers the
/// original value, whatever follows the quote.
proof fn lemma_scan_escaped(x: Seq<char>, rest: Seq<char>)
    ensures
        spec_scan_quoted(spec_escape(x) + seq!['"'] + rest) == Some(
            (x, spec_escape(x).len() + 1int),
        ),
    decreases x.len(),
{
    let s = spec_escape(x) + seq!['"'] + rest;
    if x.len() == 0 {
        assert(s[0] == '"');
    } else {
        let c = x[0];
        if c == '\\' || c == '"' {
            assert(s[0] == '\\');
            assert(s[1] == c);
            assert(s.len() >= 2);
            lemma_scan_escaped(x.drop_first(), rest);
            assert(s.skip(2) =~= spec_escape(x.drop_first()) + seq!['"'] + rest);
            assert(seq![c] + x.drop_first() =~= x);
        } else {
            assert(s[0] == c);
            assert(c != '"' && c != '\\');
            lemma_scan_escaped(x.drop_first(), rest);
            assert(s.skip(1) =~= spec_escape(x.drop_first()) + seq!['"'] + rest);
            assert(seq![c] + x.drop_first() =~= x);
        }
    }
}

/// Round trip: a settings value written as a document and parsed back yields
/// exactly its two values, for every pair of values.
pub proof fn lemma_settings_round_trip(v: Settings)
    ensures
        spec_parse_settings(spec_settings_doc(v)) == Some(
            (v.library_name@, v.camera_device_id@),
        ),
{
    let p1 = "libraryName = \""@;
    let p2 = "cameraDeviceId = \""@;
    let e1 = spec_escape(v.library_name@);
    let e2 = spec_escape(v.camera_device_id@);
    let doc = spec_settings_doc(v);
    let rest1 = seq!['\n'] + p2 + e2 + seq!['"', '\n'];
    assert(doc.len() >= p1.len());
    assert(doc.subrange(0, p1.len() as int) =~= p1);
    assert(doc.skip(p1.len() as int) =~= e1 + seq!['"'] + rest1);
    lemma_scan_escaped(v.library_name@, rest1);
    let n1 = e1.len() + 1int;
    assert(doc.skip(p1.len() + n1) =~= rest1);
    assert(rest1[0] == '\n');
    assert(rest1.len() >= 1 + p2.len());
    assert(rest1.subrange(1, 1 + p2.len() as int) =~= p2);
    assert(rest1.skip(1 + p2.len() as int) =~= e2 + seq!['"'] + seq!['\n']);
    lemma_scan_escaped(v.camera_device_id@, seq!['\n']);
    let n2 = e2.len() + 1int;
    let tail = rest1.skip(1 + p2.len() + n2);
    assert(tail =~= seq!['\n']);
    assert(tail.len() == 1 && tail[0] == '\n');
}

// ---------------------------------------------------------------------------
// Executable codec.
// ---------------------------------------------------------------------------

fn append_escaped(out: &mut String, v: &str)
    ensures
        final(out)@ == old(out)@ + spec_escape(v@),
{
    let n = v.unicode_len();
    let mut i: usize = 0;
    while i < n
        invariant
            i <= n,
            n == v@.len(),
            out@ == old(out)@ + spec_escape(v@.take(i as int)),
        decreases n - i,
    {
        let c = v.get_char(i);
        if c == '\\' || c == '"' {
            out.push('\\');
            out.push(c);
        } else {
            out.push(c);
        }
        proof {
            let pre = v@.take(i as int);
            let post = v@.take(i as int + 1);
            assert(post =~= pre + seq![v@[i as int]]);
            lemma_escape_append(pre, seq![v@[i as int]]);
            lemma_escape_single(v@[i as int]);
            assert(out@ =~= old(out)@ + spec_escape(post));
        }
        i = i + 1;
    }
    proof {
        assert(v@.take(n as int) =~= v@);
    }
}

/// Writes a settings value as its two-line document.
pub fn encode_settings(s: &Settings) -> (r: String)
    ensures
        r@ == spec_settings_doc(*s),
{
    let mut out = String::new();
    out.append("libraryName = \"");
    append_escaped(&mut out, s.library_name.as_str());
    out.push('"');
    out.push('\n');
    out.append("cameraDeviceId = \"");
    append_escaped(&mut out, s.camera_device_id.as_str());
    out.push('"');
    out.push('\n');
    proof {
        assert(out@ =~= spec_settings_doc(*s));
    }
    out
}

fn str_chars(s: &str) -> (r: Vec<char>)
    ensures
        r@ == s@,
{
    let n = s.unicode_len();
    let mut out: Vec<char> = Vec::new();
    let mut i: usize = 0;
    while i < n
        invariant
            i <= n,
            n == s@.len(),
            out@ =~= s@.take(i as int),
        decreases n - i,
    {
        out.push(s.get_char(i));
        i = i + 1;
    }
    proof {
        assert(out@ =~= s@);
    }
    out
}

fn match_prefix(chars: &Vec<char>, at: usize, p: &str) -> (r: bool)
    requires
        at <= chars@.len(),
    ensures
        r == (at + p@.len() <= chars@.len() && chars@.subrange(
            at as int,
            at + p@.len(),
        ) == p@),
{
    let n = p.unicode_len();
    if n > chars.len() - at {
        return false;
    }
    let mut i: usize = 0;
    while i < n
        invariant
            i <= n,
            n == p@.len(),
            at + n <= chars@.len() <= usize::MAX,
            forall|j: int| 0 <= j < i ==> chars@[at + j] == p@[j],
        decreases n - i,
    {
        if chars[at + i] != p.get_char(i) {
            proof {
                assert(chars@.subrange(at as int, at + p@.len())[i as int] != p@[i as int]);
            }
            return false;
        }
        i = i + 1;
    }
    proof {
        assert(chars@.subrange(at as int, at + p@.len()) =~= p@);
    }
    true
}

fn scan_quoted(chars: &Vec<char>, at: usize) -> (r: Option<(String, usize)>)
    requires
        at <= chars@.len(),
    ensures
        match r {
            Some(p) => spec_scan_quoted(chars@.skip(at as int)) == Some((p.0@, p.1 as int)) && at
                + p.1 <= chars@.len(),
            None => spec_scan_quoted(chars@.skip(at as int)) is None,
        },
    decreases chars@.len() - at,
{
    let s = Ghost(chars@.skip(at as int));
    if at >= chars.len() {
        return None;
    }
    let c = chars[at];
    proof {
        assert(s@[0] == chars@[at as int]);
    }
    if c == '"' {
        Some((String::new(), 1))
    } else if c == '\\' {
        if at + 1 >= chars.len() {
            proof {
                assert(s@.len() < 2);
            }
            return None;
        }
        let c2 = chars[at + 1];
        proof {
            assert(s@[1] == chars@[at + 1]);
        }
        if c2 == '\\' || c2 == '"' {
            match scan_quoted(chars, at + 2) {
                Some((v, n)) => {
                    let mut out = String::new();
                    out.push(c2);
                    out.append(v.as_str());
                    proof {
                        assert(s@.skip(2) =~= chars@.skip(at + 2));
                        assert(out@ =~= seq![s@[1]] + v@);
                    }
                    Some((out, n + 2))
                },
                None => {
                    proof {
                        assert(s@.skip(2) =~= chars@.skip(at + 2));
                    }
                    None
                },
            }
        } else {
            None
        }
    } else {
        match scan_quoted(chars, at + 1) {
            Some((v, n)) => {
                let mut out = String::new();
                out.push(c);
                out.append(v.as_str());
                proof {
                    assert(s@.skip(1) =~= chars@.skip(at + 1));
                    assert(out@ =~= seq![s@[0]] + v@);
                }
                Some((out, n + 1))
            },
            None => {
                proof {
                    assert(s@.skip(1) =~= chars@.skip(at + 1));
                }
                None
            },
        }
    }
}

/// Reads a settings document back into a value: `Some` exactly when the text
/// is a settings document, and then the parsed values are the document's.
pub fn parse_settings(text: &str) -> (r: Option<Settings>)
    ensures
        match r {
            Some(v) => spec_parse_settings(text@) == Some(
                (v.library_name@, v.camera_device_id@),
            ),
            None => spec_parse_settings(text@) is None,
        },
{
    let chars = str_chars(text);
    let total = chars.len();
    let p1 = "libraryName = \"";
    let p2 = "cameraDeviceId = \"";
    if !match_prefix(&chars, 0, p1) {
        return None;
    }
    let k1 = p1.unicode_len();
    let (v1, n1) = match scan_quoted(&chars, k1) {
        Some(p) => p,
        None => {
            return None;
        },
    };
    let after1 = k1 + n1;
    let ghost rest = chars@.skip(after1 as int);
    if after1 >= total || chars[after1] != '\n' {
        proof {
            if rest.len() >= 1 {
                assert(rest[0] == chars@[after1 as int]);
            }
        }
        return None;
    }
    if !match_prefix(&chars, after1 + 1, p2) {
        proof {
            if rest.len() >= 1 + p2@.len() {
                assert(rest.subrange(1, 1 + p2@.len() as int) =~= chars@.subrange(
                    after1 + 1,
                    after1 + 1 + p2@.len(),
                ));
            }
        }
        return None;
    }
    let k2 = p2.unicode_len();
    proof {
        assert(rest[0] == chars@[after1 as int]);
        assert(rest.subrange(1, 1 + p2@.len() as int) =~= chars@.subrange(
            after1 + 1,
            after1 + 1 + p2@.len(),
        ));
        assert(rest.skip(1 + k2 as int) =~= chars@.skip(after1 + 1 + k2));
    }
    let (v2, n2) = match scan_quoted(&chars, after1 + 1 + k2) {
        Some(p) => p,
        None => {
            return None;
        },
    };
    let after2 = after1 + 1 + k2 + n2;
    let ghost tail = rest.skip(1 + k2 + n2);
    proof {
        assert(tail =~= chars@.skip(after2 as int));
    }
    if total - after2 == 0 {
        Some(Settings { library_name: v1, camera_device_id: v2 })
    } else if total - after2 == 1 && chars[after2] == '\n' {
        proof {
            assert(tail[0] == chars@[after2 as int]);
        }
        Some(Settings { library_name: v1, camera_device_id: v2 })
    } else {
        proof {
            if tail.len() == 1 {
                assert(tail[0] == chars@[after2 as int]);
            }
        }
        None
    }
}

// ---------------------------------------------------------------------------
// Loading policy.
// ---------------------------------------------------------------------------

/// The three ways reading the settings file can turn out, as the surrounding
/// application reports them.
pub enum LoadOutcome {
    /// The file exists and holds this text.
    Found(String),
    /// The file does not exist.
    Missing,
    /// Reading failed for another reason, with this description.
    Failed(String),
}

/// The load policy: parse a found document (a malformed one is an error, not
/// a default); fall back to the defaults when the file is missing, asking
/// the caller to persist them (the `true` flag); pass any other read failure
/// through.
pub fn resolve_load(outcome: LoadOutcome) -> (r: Result<(Settings, bool), Error>)
    ensures
        match outcome {
            LoadOutcome::Found(text) => match spec_parse_settings(text@) {
                Some(p) => r matches Ok(sp) && sp.0.library_name@ == p.0
                    && sp.0.camera_device_id@ == p.1 && sp.1 == false,
                None => r matches Err(e) && e is Serialization,
            },
            LoadOutcome::Missing => r matches Ok(sp) && sp.0.library_name@ == "Librarie"@
                && sp.0.camera_device_id@ == Seq::<char>::empty() && sp.1 == true,
            LoadOutcome::Failed(m) => r matches Err(e) && (e matches Error::Io(m2) && m2@ == m@),
        },
{
    match outcome {
        LoadOutcome::Found(text) => match parse_settings(text.as_str()) {
            Some(v) => Ok((v, false)),
            None => Err(Error::Serialization),
        },
        LoadOutcome::Missing => Ok((Settings::default(), true)),
        LoadOutcome::Failed(m) => Err(Error::Io(m)),
    }
}

/// Knows where the settings document lives under a data directory.
pub struct SettingsLoader {
    path: String,
}

impl SettingsLoader {
    /// The full path of the settings document.
    pub closed spec fn spec_path(&self) -> Seq<char> {
        self.path@
    }

    /// A loader rooted at the given data directory.
    pub fn from(app_data_path: &String) -> (r: Self)
        ensures
            r.spec_path() == app_data_path@ + "/settings.toml"@,
    {
        let mut path = app_data_path.clone();
        path.append("/settings.toml");
        SettingsLoader { path }
    }

    /// The path the loader reads and writes.
    pub fn path(&self) -> (r: &String)
        ensures
            r@ == self.spec_path(),
    {
        &self.path
    }
}

} // verus!
