use vstd::prelude::*;

use crate::text::{push_char, push_str};

verus! {

/// The index of the last `/` of a text, or -1 when it has none.
pub open spec fn last_slash(p: Seq<char>) -> int
    decreases p.len(),
{
    if p.len() == 0 {
        -1
    } else if p.last() == '/' {
        p.len() - 1
    } else {
        last_slash(p.drop_last())
    }
}

/// What follows the last `/` of a path: all of it when it has none.
pub open spec fn last_segment(p: Seq<char>) -> Seq<char> {
    p.skip(last_slash(p) + 1)
}

/// Whether the file name of a path is the same on every platform: the path holds no backslash
/// and no `:` (no other separator, no drive prefix), and what follows its last `/` is neither
/// empty, `.` nor `..`, so that it is the path's last component.
pub open spec fn is_plain_path(p: Seq<char>) -> bool {
    &&& !p.contains('\\')
    &&& !p.contains(':')
    &&& last_segment(p).len() > 0
    &&& last_segment(p) != "."@
    &&& last_segment(p) != ".."@
}

/// The index of the last `.` of a text, or -1 when it has none.
pub open spec fn last_dot(p: Seq<char>) -> int
    decreases p.len(),
{
    if p.len() == 0 {
        -1
    } else if p.last() == '.' {
        p.len() - 1
    } else {
        last_dot(p.drop_last())
    }
}

/// The extension of a file name: what follows its last `.`, when it has a `.` that is not its
/// first character.
pub open spec fn name_extension(p: Seq<char>) -> Option<Seq<char>> {
    if last_dot(p) <= 0 {
        None
    } else {
        Some(p.skip(last_dot(p) + 1))
    }
}

/// `std::path::Path::extension`, as text: the part of the file name after
/// its last `.`, when the file name has a `.` that is not its first
/// character. What a file name is depends on the platform's separators:
/// for a path whose last component is the same on every platform (see
/// `is_plain_path`) the extension is stated in full; for other paths only
/// what holds on every platform is stated: the extension holds neither `.`
/// nor `/`.
#[verifier::external_body]
fn path_extension(path: &str) -> (r: Option<String>)
    ensures
        is_plain_path(path@) ==> match name_extension(last_segment(path@)) {
            Some(x) => r matches Some(e) && e@ == x,
            None => r is None,
        },
        r matches Some(e) ==> !e@.contains('.') && !e@.contains('/'),
{
    match std::path::Path::new(path).extension() {
        Some(e) => match e.to_str() {
            Some(s) => Some(s.to_string()),
            None => None,
        },
        None => None,
    }
}

/// A file format of the database.
#[derive(Clone, Copy, PartialEq, Eq, Structural, Debug)]
pub enum Format {
    Yaml,
    Json,
}

/// The format that a file extension names.
pub open spec fn format_of_extension(e: Option<Seq<char>>) -> Option<Format> {
    match e {
        Some(e) => if e == "json"@ {
            Some(Format::Json)
        } else if e == "yaml"@ {
            Some(Format::Yaml)
        } else {
            None
        },
        None => None,
    }
}

fn text_is(s: &str, lit: &str) -> (r: bool)
    ensures
        r == (s@ == lit@),
{
    let n = s.unicode_len();
    if n != lit.unicode_len() {
        return false;
    }
    let mut i: usize = 0;
    while i < n
        invariant
            n == s@.len(),
            n == lit@.len(),
            i <= n,
            forall|j: int| 0 <= j < i ==> s@[j] == lit@[j],
        decreases n - i,
    {
        if s.get_char(i) != lit.get_char(i) {
            return false;
        }
        i = i + 1;
    }
    assert(s@ =~= lit@);
    true
}

impl Format {
    /// The format that a file extension names: `json` or `yaml`.
    pub fn from_extension(extension: Option<&str>) -> (r: Option<Format>)
        ensures
            r == format_of_extension(
                match extension {
                    Some(e) => Some(e@),
                    None => None,
                },
            ),
    {
        match extension {
            Some(e) => {
                if text_is(e, "json") {
                    Some(Format::Json)
                } else if text_is(e, "yaml") {
                    Some(Format::Yaml)
                } else {
                    None
                }
            },
            None => None,
        }
    }

    /// The format of a file, by the extension of its path: `json` or
    /// `yaml`. Where the file name of the path is the same on every
    /// platform, the extension is what follows the last `.` of that name;
    /// for other paths the platform decides what the file name is.
    pub fn from_path(path: &str) -> (r: Option<Format>)
        ensures
            is_plain_path(path@) ==> r == format_of_extension(name_extension(last_segment(path@))),
    {
        let extension = path_extension(path);
        match &extension {
            Some(e) => Format::from_extension(Some(e.as_str())),
            None => Format::from_extension(None),
        }
    }

    /// Start writing an array in this format.
    pub fn start_array(self) -> (r: SerializeArray)
        ensures
            r.count == 0,
            r.mode == self,
    {
        SerializeArray { count: 0, mode: self }
    }

    /// The text that follows a whole document written in this format.
    pub fn pretty_end(self) -> (s: &'static str)
        ensures
            s@ == "\n"@,
    {
        "\n"
    }
}

/// The writing of an array of items, each serialized on its own: JSON
/// writes one item per line, YAML separates documents with `---`.
pub struct SerializeArray {
    /// How many items were written.
    pub count: usize,
    /// The format written.
    pub mode: Format,
}

/// The text that an array writer puts around an item: what goes before it
/// and what goes after it.
pub open spec fn item_frame(mode: Format, count: nat) -> (Seq<char>, Seq<char>) {
    match mode {
        Format::Yaml => (if count > 0 {
            "---\n"@
        } else {
            Seq::empty()
        }, Seq::empty()),
        Format::Json => (Seq::empty(), "\n"@),
    }
}

impl SerializeArray {
    /// Write one serialized item to `output`, framed for the format.
    pub fn serialize_item(&mut self, item: &str, output: &mut String)
        requires
            old(self).count < usize::MAX,
        ensures
            final(self).count == old(self).count + 1,
            final(self).mode == old(self).mode,
            final(output)@ == old(output)@ + item_frame(old(self).mode, old(self).count as nat).0 + item@
                + item_frame(old(self).mode, old(self).count as nat).1,
    {
        match self.mode {
            Format::Yaml => {
                if self.count > 0 {
                    push_str(output, "---\n");
                }
                push_str(output, item);
            },
            Format::Json => {
                push_str(output, item);
                push_str(output, "\n");
            },
        }
        self.count = self.count + 1;
    }

    /// Finish the array: nothing more is written.
    pub fn finish(self) -> (r: Result<(), ()>)
        ensures
            r is Ok,
    {
        Ok(())
    }
}

/// Whether `c` has the Unicode White_Space property.
pub open spec fn is_white(c: char) -> bool {
    let n = c as u32;
    (9 <= n <= 13) || n == 32 || n == 0x85 || n == 0xA0 || n == 0x1680 || (0x2000 <= n <= 0x200A) || n == 0x2028
        || n == 0x2029 || n == 0x202F || n == 0x205F || n == 0x3000
}

fn white(c: char) -> (r: bool)
    ensures
        r == is_white(c),
{
    let n = c as u32;
    (9 <= n && n <= 13) || n == 32 || n == 0x85 || n == 0xA0 || n == 0x1680 || (0x2000 <= n && n <= 0x200A) || n
        == 0x2028 || n == 0x2029 || n == 0x202F || n == 0x205F || n == 0x3000
}

/// `s` without leading white space.
pub open spec fn trim_start(s: Seq<char>) -> Seq<char>
    decreases s.len(),
{
    if s.len() > 0 && is_white(s[0]) {
        trim_start(s.drop_first())
    } else {
        s
    }
}

/// `s` without trailing white space.
pub open spec fn trim_end(s: Seq<char>) -> Seq<char>
    decreases s.len(),
{
    if s.len() > 0 && is_white(s.last()) {
        trim_end(s.drop_last())
    } else {
        s
    }
}

/// `s` without leading and trailing white space.
pub open spec fn trim(s: Seq<char>) -> Seq<char> {
    trim_end(trim_start(s))
}

/// Whether a trimmed line holds a record: it is not empty and not a
/// comment starting with `#`.
pub open spec fn is_record_line(l: Seq<char>) -> bool {
    l.len() > 0 && l[0] != '#'
}

/// The texts of strings.
pub open spec fn texts(v: Seq<String>) -> Seq<Seq<char>> {
    v.map_values(|s: String| s@)
}

/// The record lines among `lines`, trimmed, in order.
pub open spec fn record_lines_of(lines: Seq<Seq<char>>) -> Seq<Seq<char>> {
    lines.map_values(|l: Seq<char>| trim(l)).filter(|l: Seq<char>| is_record_line(l))
}

proof fn lemma_trim_start_skip(s: Seq<char>, a: int)
    requires
        0 <= a <= s.len(),
        forall|j: int| 0 <= j < a ==> is_white(s[j]),
        a == s.len() || !is_white(s[a]),
    ensures
        trim_start(s) == s.skip(a),
    decreases a,
{
    if a == 0 {
        assert(s.skip(0) =~= s);
    } else {
        assert forall|j: int| 0 <= j < a - 1 implies is_white(s.drop_first()[j]) by {
            assert(s.drop_first()[j] == s[j + 1]);
        }
        if a - 1 < s.drop_first().len() {
            assert(s.drop_first()[a - 1] == s[a]);
        }
        lemma_trim_start_skip(s.drop_first(), a - 1);
        assert(s.drop_first().skip(a - 1) =~= s.skip(a));
    }
}

proof fn lemma_trim_end_take(t: Seq<char>, b: int)
    requires
        0 <= b <= t.len(),
        forall|j: int| b <= j < t.len() ==> is_white(t[j]),
        b == 0 || !is_white(t[b - 1]),
    ensures
        trim_end(t) == t.take(b),
    decreases t.len() - b,
{
    if b == t.len() {
        assert(t.take(b) =~= t);
    } else {
        assert forall|j: int| b <= j < t.drop_last().len() implies is_white(t.drop_last()[j]) by {}
        if b > 0 {
            assert(t.drop_last()[b - 1] == t[b - 1]);
        }
        lemma_trim_end_take(t.drop_last(), b);
        assert(t.drop_last().take(b) =~= t.take(b));
    }
}

/// `s` without leading and trailing white space.
pub fn trim_text(s: &str) -> (r: String)
    ensures
        r@ == trim(s@),
{
    let n = s.unicode_len();
    let mut a: usize = 0;
    while a < n && white(s.get_char(a))
        invariant
            n == s@.len(),
            a <= n,
            forall|j: int| 0 <= j < a ==> is_white(s@[j]),
        decreases n - a,
    {
        a = a + 1;
    }
    let mut b: usize = n;
    while b > a && white(s.get_char(b - 1))
        invariant
            n == s@.len(),
            a <= b <= n,
            forall|j: int| b <= j < n ==> is_white(s@[j]),
        decreases b,
    {
        b = b - 1;
    }
    proof {
        lemma_trim_start_skip(s@, a as int);
        let t = s@.skip(a as int);
        assert forall|j: int| b - a <= j < t.len() implies is_white(t[j]) by {
            assert(t[j] == s@[j + a]);
        }
        if b > a {
            assert(t[b - a - 1] == s@[b - 1]);
        }
        lemma_trim_end_take(t, b - a);
        assert(t.take(b - a) =~= s@.subrange(a as int, b as int));
    }
    let mut r = String::new();
    push_str(&mut r, s.substring_char(a, b));
    r
}

/// The lines that hold records, trimmed, in order: neither empty nor
/// comments starting with `#`.
pub fn record_lines(lines: &Vec<String>) -> (r: Vec<String>)
    ensures
        texts(r@) == record_lines_of(texts(lines@)),
{
    let mut out: Vec<String> = Vec::new();
    let mut i: usize = 0;
    while i < lines.len()
        invariant
            i <= lines@.len(),
            texts(out@) == record_lines_of(texts(lines@.take(i as int))),
        decreases lines@.len() - i,
    {
        let t = trim_text(lines[i].as_str());
        proof {
            reveal_with_fuel(Seq::filter, 1);
            let prev = texts(lines@.take(i as int));
            let next = texts(lines@.take(i + 1));
            assert(next =~= prev.push(lines@[i as int]@));
            let mp = prev.map_values(|l: Seq<char>| trim(l));
            let mn = next.map_values(|l: Seq<char>| trim(l));
            assert(mn =~= mp.push(t@));
            assert(mn.drop_last() =~= mp);
        }
        let keep = t.as_str().unicode_len() > 0 && t.as_str().get_char(0) != '#';
        if keep {
            proof {
                assert(texts(out@.push(t)) =~= texts(out@).push(t@));
            }
            out.push(t);
        }
        i = i + 1;
    }
    assert(lines@.take(i as int) =~= lines@);
    out
}

} // verus!
