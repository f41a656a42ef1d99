//! Source positions for the test harness: a cache of file lines and the
//! helpers that turn a (file, line, name) triple into editor positions.
//!
//! Reading files is the embedding code's business: it loads a file's lines
//! once and hands them in, and every lookup and position computation is
//! verified against the cached text.
use vstd::prelude::*;
use vstd::string::StringSliceAdditionalSpecFns;
use vstd::utf8::is_continuation_byte;
use crate::text::{chars_to_string, chars_eq, dec_chars, find_chars, matches_at, str_to_chars};

verus! {

/// A place in a source file: the file, a 1-indexed line, and the name to
/// locate on that line.
#[derive(Clone, Debug)]
pub struct Src {
    pub file_name: String,
    /// 1 indexed.
    pub line: usize,
    pub name: String,
}

/// Builds a [`Src`].
pub fn src(file_name: &str, line: usize, name: &str) -> (r: Src)
    ensures
        r.file_name@ == file_name@,
        r.line == line,
        r.name@ == name@,
{
    Src { file_name: file_name.to_owned(), line, name: name.to_owned() }
}

/// One cached file: its name and its lines, as characters.
pub struct CachedFile {
    pub name: String,
    pub lines: Vec<Vec<char>>,
}

/// A cache of source files for position lookups, rooted at a base path.
pub struct Cache {
    pub base_path: String,
    pub files: Vec<CachedFile>,
}

/// The line views of a cached file's line vector.
pub open spec fn line_views(ls: Seq<Vec<char>>) -> Seq<Seq<char>> {
    ls.map_values(|l: Vec<char>| l@)
}

/// Whether the cache holds a file of this name.
pub open spec fn cache_has(files: Seq<CachedFile>, name: Seq<char>) -> bool {
    exists|i: int| 0 <= i < files.len() && (#[trigger] files[i]).name@ == name
}

/// The lines of the first cached file of this name.
pub open spec fn cache_lines(files: Seq<CachedFile>, name: Seq<char>) -> Seq<Seq<char>>
    decreases files.len(),
{
    if files.len() == 0 {
        Seq::empty()
    } else if files.first().name@ == name {
        line_views(files.first().lines@)
    } else {
        cache_lines(files.drop_first(), name)
    }
}

/// The first position at or after `i` where `needle` occurs in `hay`, or
/// one past the end when it never does.
pub open spec fn first_match_from(hay: Seq<char>, needle: Seq<char>, i: int) -> int
    decreases hay.len() + 1 - i when 0 <= i <= hay.len() + 1
{
    if i > hay.len() {
        i
    } else if matches_at(hay, needle, i) {
        i
    } else {
        first_match_from(hay, needle, i + 1)
    }
}

/// A search that found the first occurrence agrees with `first_match_from`.
proof fn lemma_first_match(hay: Seq<char>, needle: Seq<char>, at: int, i: int)
    requires
        0 <= i <= at,
        matches_at(hay, needle, at),
        forall|j: int| 0 <= j < at ==> !matches_at(hay, needle, j),
    ensures
        first_match_from(hay, needle, i) == at,
    decreases at - i,
{
    if i < at {
        lemma_first_match(hay, needle, at, i + 1);
    }
}

/// The position rendering the language-server protocol uses: zero-based
/// line and character, both as quoted decimal strings.
pub open spec fn ls_position_json(line: nat, character: nat) -> Seq<char> {
    seq!['{', '"', 'l', 'i', 'n', 'e', '"', ':', '"'] + dec_chars(line) + seq![
        '"',
        ',',
        '"',
        'c',
        'h',
        'a',
        'r',
        'a',
        'c',
        't',
        'e',
        'r',
        '"',
        ':',
        '"',
    ] + dec_chars(character) + seq!['"', '}']
}

impl Cache {
    /// An empty cache rooted at `base_path`.
    pub fn new(base_path: &str) -> (r: Cache)
        ensures
            r.base_path@ == base_path@,
            r.files@.len() == 0,
    {
        Cache { base_path: base_path.to_owned(), files: Vec::new() }
    }

    /// Loads one file's lines into the cache. The embedding code reads the
    /// file; the cache only ever works on the text handed in here.
    pub fn insert_file(&mut self, name: &str, lines: &Vec<String>)
        ensures
            final(self).base_path@ == old(self).base_path@,
            final(self).files@.len() == old(self).files@.len() + 1,
            forall|i: int|
                0 <= i < old(self).files@.len() ==> #[trigger] final(self).files@[i] == old(
                    self,
                ).files@[i],
            final(self).files@.last().name@ == name@,
            line_views(final(self).files@.last().lines@) == lines@.map_values(|l: String| l@),
    {
        let mut converted: Vec<Vec<char>> = Vec::new();
        let n = lines.len();
        let mut i: usize = 0;
        while i < n
            invariant
                0 <= i <= n,
                n == lines@.len(),
                converted@.len() == i,
                forall|j: int| 0 <= j < i ==> (#[trigger] converted@[j])@ == lines@[j]@,
            decreases n - i,
        {
            converted.push(str_to_chars(lines[i].as_str()));
            i = i + 1;
        }
        proof {
            assert(line_views(converted@) =~= lines@.map_values(|l: String| l@));
        }
        self.files.push(CachedFile { name: name.to_owned(), lines: converted });
    }

    /// The cached lines of a file, by name.
    fn lookup(&self, name: &str) -> (r: Option<&Vec<Vec<char>>>)
        ensures
            match r {
                Some(ls) => cache_has(self.files@, name@) && line_views(ls@) == cache_lines(
                    self.files@,
                    name@,
                ),
                None => !cache_has(self.files@, name@),
            },
    {
        let n = self.files.len();
        let mut i: usize = 0;
        proof {
            assert(self.files@.skip(0) =~= self.files@);
        }
        while i < n
            invariant
                0 <= i <= n,
                n == self.files@.len(),
                forall|j: int| 0 <= j < i ==> (#[trigger] self.files@[j]).name@ != name@,
                cache_lines(self.files@, name@) == cache_lines(
                    self.files@.skip(i as int),
                    name@,
                ),
        decreases n - i,
        {
            let nm = str_to_chars(self.files[i].name.as_str());
            let target = str_to_chars(name);
            if chars_eq(&nm, &target) {
                proof {
                    let tail = self.files@.skip(i as int);
                    assert(tail.first() == self.files@[i as int]);
                }
                return Some(&self.files[i].lines);
            }
            proof {
                let tail = self.files@.skip(i as int);
                assert(tail.first() == self.files@[i as int]);
                assert(tail.drop_first() =~= self.files@.skip(i + 1));
            }
            i = i + 1;
        }
        proof {
            assert(self.files@.skip(n as int).len() == 0);
            if cache_has(self.files@, name@) {
                let w = choose|w: int|
                    0 <= w < self.files@.len() && (#[trigger] self.files@[w]).name@ == name@;
            }
        }
        None
    }

    /// The language-server position of `src`: its zero-based line, and the
    /// character index of the first occurrence of the name on that line.
    /// The file must be cached, the line must exist, and the name must
    /// occur on the line — asking for anything else is a harness bug.
    pub fn mk_ls_position(&mut self, src: Src) -> (r: String)
        requires
            1 <= src.line,
            cache_has(old(self).files@, src.file_name@),
            src.line - 1 < cache_lines(old(self).files@, src.file_name@).len(),
            exists|at: int|
                #[trigger] matches_at(
                    cache_lines(old(self).files@, src.file_name@)[src.line - 1],
                    src.name@,
                    at,
                ),
        ensures
            *final(self) == *old(self),
            r@ == ls_position_json(
                (src.line - 1) as nat,
                first_match_from(
                    cache_lines(old(self).files@, src.file_name@)[src.line - 1],
                    src.name@,
                    0,
                ) as nat,
            ),
    {
        let lines = match self.lookup(src.file_name.as_str()) {
            Some(ls) => ls,
            None => {
                proof {
                    assert(false);
                }
                return String::new();
            },
        };
        let line = &lines[src.line - 1];
        let needle = str_to_chars(src.name.as_str());
        let at = match find_chars(line, &needle) {
            Some(at) => at,
            None => {
                proof {
                    let w = choose|w: int| matches_at(line@, needle@, w);
                }
                proof {
                    assert(false);
                }
                return String::new();
            },
        };
        proof {
            lemma_first_match(line@, needle@, at as int, 0);
        }
        let mut out: Vec<char> = Vec::new();
        out.push('{');
        out.push('"');
        out.push('l');
        out.push('i');
        out.push('n');
        out.push('e');
        out.push('"');
        out.push(':');
        out.push('"');
        crate::text::push_dec_chars((src.line - 1) as u64, &mut out);
        out.push('"');
        out.push(',');
        out.push('"');
        out.push('c');
        out.push('h');
        out.push('a');
        out.push('r');
        out.push('a');
        out.push('c');
        out.push('t');
        out.push('e');
        out.push('r');
        out.push('"');
        out.push(':');
        out.push('"');
        crate::text::push_dec_chars(at as u64, &mut out);
        out.push('"');
        out.push('}');
        proof {
            assert(out@ =~= ls_position_json(
                (src.line - 1) as nat,
                first_match_from(line@, needle@, 0) as nat,
            ));
        }
        chars_to_string(&out)
    }

    /// The absolute path of `file_name` under the cache's base path: the
    /// lexical join the path library performs, without touching the file
    /// system.
    pub fn abs_path(&self, file_name: &str) -> (r: String)
        ensures
            r@ == spec_join(self.base_path@, file_name@),
    {
        let base = str_to_chars(self.base_path.as_str());
        let file = str_to_chars(file_name);
        if file.len() >= 1 && file[0] == '/' {
            return chars_to_string(&file);
        }
        if base.len() == 0 {
            return chars_to_string(&file);
        }
        let mut out = base;
        if out[out.len() - 1] != '/' {
            out.push('/');
        }
        let mut rest = file;
        out.append(&mut rest);
        proof {
            assert(out@ =~= spec_join(self.base_path@, file_name@));
        }
        chars_to_string(&out)
    }
}

/// Joining a base path and a relative path: an absolute path replaces the
/// base, anything else goes after the base and exactly one separator.
pub open spec fn spec_join(base: Seq<char>, file: Seq<char>) -> Seq<char> {
    if file.len() >= 1 && file[0] == '/' {
        file
    } else if base.len() == 0 {
        file
    } else if base.last() == '/' {
        base + file
    } else {
        base + seq!['/'] + file
    }
}

/// How many characters of `b` start before byte position `upto`: the
/// number of bytes there that do not continue an earlier character.
pub open spec fn lead_count(b: Seq<u8>, upto: int) -> int
    decreases upto,
{
    if upto <= 0 {
        0
    } else {
        lead_count(b, upto - 1) + if is_continuation_byte(b[upto - 1]) {
            0int
        } else {
            1int
        }
    }
}

/// The character index of the character that starts at byte offset `byte`
/// of `s`: how many characters start before it. The offset must name the
/// start of a character.
pub fn char_of_byte_index(s: &str, byte: usize) -> (r: usize)
    requires
        byte < s.spec_bytes().len(),
        !is_continuation_byte(s.spec_bytes()[byte as int]),
    ensures
        r == lead_count(s.spec_bytes(), byte as int),
{
    let bytes = s.as_bytes();
    let mut count: usize = 0;
    let mut i: usize = 0;
    while i < byte
        invariant
            0 <= i <= byte,
            byte < bytes@.len(),
            bytes@ == s.spec_bytes(),
            count == lead_count(bytes@, i as int),
            count <= i,
        decreases byte - i,
    {
        let b = *vstd::slice::slice_index_get(bytes, i);
        if !(b >= 0x80 && b <= 0xbf) {
            count = count + 1;
        }
        i = i + 1;
    }
    count
}

} // verus!
