//! Ignore rules read from a `.bitignore` file, and the test of a path against
//! them.

use vstd::prelude::*;
use crate::object::opt_view;
use crate::text::{chars_of, trim, trim_bounds, string_from_chars, ends_with, chars_end_with};

verus! {

/// The index of the first newline in `s`, or `s.len()` if there is none.
pub open spec fn first_newline(s: Seq<char>) -> int
    decreases s.len(),
{
    if s.len() == 0 {
        0
    } else if s[0] == '\n' {
        0
    } else {
        1 + first_newline(s.drop_first())
    }
}

/// `first_newline` lies within the sequence and no newline comes before it.
pub proof fn lemma_first_newline(s: Seq<char>)
    ensures
        0 <= first_newline(s) <= s.len(),
        first_newline(s) < s.len() ==> s[first_newline(s)] == '\n',
        forall|j: int| 0 <= j < first_newline(s) ==> s[j] != '\n',
    decreases s.len(),
{
    if s.len() > 0 && s[0] != '\n' {
        lemma_first_newline(s.drop_first());
        assert forall|j: int| 0 <= j < first_newline(s) implies s[j] != '\n' by {
            if j > 0 {
                assert(s[j] == s.drop_first()[j - 1]);
            }
        }
    }
}

/// A position `k` before which there is no newline, and at which there is one
/// or the end, is the first newline.
proof fn lemma_first_newline_at(s: Seq<char>, k: int)
    requires
        0 <= k <= s.len(),
        forall|j: int| 0 <= j < k ==> s[j] != '\n',
        k < s.len() ==> s[k] == '\n',
    ensures
        first_newline(s) == k,
    decreases s.len(),
{
    if s.len() > 0 && s[0] != '\n' {
        assert forall|j: int| 0 <= j < k - 1 implies s.drop_first()[j] != '\n' by {
            assert(s[j + 1] != '\n');
        }
        lemma_first_newline_at(s.drop_first(), k - 1);
    }
}

/// `line` without one trailing carriage return.
pub open spec fn strip_cr(line: Seq<char>) -> Seq<char> {
    if line.len() > 0 && line.last() == '\r' {
        line.drop_last()
    } else {
        line
    }
}

/// The lines of `s` as `str::lines` gives them: split at each `\n`, with a
/// `\r` just before it removed, and no empty last line after a final `\n`.
pub open spec fn text_lines(s: Seq<char>) -> Seq<Seq<char>>
    decreases s.len(),
{
    if s.len() == 0 {
        Seq::empty()
    } else {
        let i = first_newline(s);
        proof {
            lemma_first_newline(s);
        }
        if i == s.len() {
            seq![s]
        } else {
            seq![strip_cr(s.take(i))].add(text_lines(s.skip(i + 1)))
        }
    }
}

/// A trimmed line of an ignore file that is a pattern: not empty and not a
/// comment.
pub open spec fn is_pattern(line: Seq<char>) -> bool {
    line.len() > 0 && line[0] != '#'
}

/// The patterns of the trimmed lines `lines`, in order.
pub open spec fn keep_patterns(lines: Seq<Seq<char>>) -> Seq<Seq<char>>
    decreases lines.len(),
{
    if lines.len() == 0 {
        Seq::empty()
    } else {
        let rest = keep_patterns(lines.drop_first());
        let l = trim(lines[0]);
        if is_pattern(l) {
            seq![l].add(rest)
        } else {
            rest
        }
    }
}

/// The patterns of an ignore file: its lines, trimmed, leaving out empty lines
/// and lines that start with `#`.
pub open spec fn ignore_patterns(contents: Seq<char>) -> Seq<Seq<char>> {
    keep_patterns(text_lines(contents))
}

/// The text of an optional file name; empty when there is none (what
/// `unwrap_or_default` gives).
pub open spec fn name_or_empty(name: Option<Seq<char>>) -> Seq<char> {
    match name {
        Some(n) => n,
        None => Seq::empty(),
    }
}

/// `p` without its trailing slashes.
pub open spec fn trim_end_slashes(p: Seq<char>) -> Seq<char>
    decreases p.len(),
{
    if p.len() > 0 && p.last() == '/' {
        trim_end_slashes(p.drop_last())
    } else {
        p
    }
}

/// Whether one pattern matches the path `rel` with components `comps` and
/// file name `fname`: a pattern ending in `/` names a directory, matched by
/// any component; a pattern `*.ext` matches file names ending in `.ext`; any
/// other pattern matches the file name or the whole path.
pub open spec fn pattern_matches(
    pat: Seq<char>,
    rel: Seq<char>,
    comps: Seq<Seq<char>>,
    fname: Seq<char>,
) -> bool {
    if pat.len() > 0 && pat.last() == '/' {
        comps.contains(trim_end_slashes(pat))
    } else if pat.len() >= 2 && pat[0] == '*' && pat[1] == '.' {
        ends_with(fname, seq!['.'] + pat.skip(2))
    } else {
        fname == pat || rel == pat
    }
}

/// Whether some pattern of `patterns` matches the path.
pub open spec fn ignored_by(
    patterns: Seq<Seq<char>>,
    rel: Seq<char>,
    comps: Seq<Seq<char>>,
    fname: Seq<char>,
) -> bool {
    exists|i: int| 0 <= i < patterns.len() && pattern_matches(#[trigger] patterns[i], rel, comps, fname)
}

/// Whether the path `rel` is ignored by `patterns`, with its components and
/// file name as `std::path` gives them.
pub open spec fn path_ignored(patterns: Seq<Seq<char>>, rel: Seq<char>) -> bool {
    ignored_by(patterns, rel, path_components_of(rel), name_or_empty(path_file_name_of(rel)))
}

/// The components of a path, each as text (what `std::path::Path::components`
/// gives, each component taken by `as_os_str`).
pub uninterp spec fn path_components_of(path: Seq<char>) -> Seq<Seq<char>>;

/// The file name of a path (what `std::path::Path::file_name` gives, as
/// text).
pub uninterp spec fn path_file_name_of(path: Seq<char>) -> Option<Seq<char>>;

/// The views of a vector of strings.
pub open spec fn strings_view(v: Seq<String>) -> Seq<Seq<char>> {
    v.map_values(|s: String| s@)
}

/// Calls `std::path::Path::components` on `path` and hands out each
/// component's text. The contract claims only that the result depends on the
/// path alone; the splitting and normalization rules of `std::path` are not
/// restated.
#[verifier::external_body]
fn path_components(path: &str) -> (res: Vec<String>)
    ensures
        strings_view(res@) == path_components_of(path@),
{
    std::path::Path::new(path).components().map(|c| c.as_os_str().to_string_lossy().into_owned()).collect()
}

/// Calls `std::path::Path::file_name` on `path` and hands out the name as
/// text. The contract claims only that the result depends on the path alone;
/// what `std::path` takes as the file name (the last normal component, none
/// after `..`, a root or a prefix) is not restated.
#[verifier::external_body]
fn path_file_name(path: &str) -> (res: Option<String>)
    ensures
        opt_view(res) == path_file_name_of(path@),
{
    std::path::Path::new(path).file_name().map(|f| f.to_string_lossy().into_owned())
}

/// The length of `p` without its trailing slashes.
fn slash_trimmed_len(p: &Vec<char>) -> (e: usize)
    ensures
        e <= p@.len(),
        p@.take(e as int) == trim_end_slashes(p@),
{
    let mut e = p.len();
    assert(p@.take(e as int) =~= p@);
    while e > 0 && p[e - 1] == '/'
        invariant
            e <= p@.len(),
            trim_end_slashes(p@) == trim_end_slashes(p@.take(e as int)),
        decreases e,
    {
        assert(p@.take(e as int).drop_last() =~= p@.take(e as int - 1));
        e = e - 1;
    }
    e
}

/// The ignore rules: the patterns of an ignore file.
pub struct Bitignore {
    patterns: Vec<String>,
}

impl View for Bitignore {
    type V = Seq<Seq<char>>;

    closed spec fn view(&self) -> Seq<Seq<char>> {
        strings_view(self.patterns@)
    }
}

impl Bitignore {
    /// The patterns, in the order of the file.
    pub fn patterns(&self) -> (r: &Vec<String>)
        ensures
            strings_view(r@) == self@,
    {
        &self.patterns
    }

    /// The rules of an ignore file with contents `contents`.
    pub fn parse(contents: &str) -> (res: Bitignore)
        ensures
            res@ == ignore_patterns(contents@),
    {
        let v = chars_of(contents);
        let n = v.len();
        let mut patterns: Vec<String> = Vec::new();
        let mut start: usize = 0;
        let mut i: usize = 0;
        assert(v@.skip(0) =~= v@);
        assert(strings_view(patterns@) =~= Seq::<Seq<char>>::empty());
        while i < n
            invariant
                n == v@.len(),
                start <= i <= n,
                forall|j: int| start <= j < i ==> v@[j] != '\n',
                ignore_patterns(v@) == strings_view(patterns@) + ignore_patterns(v@.skip(start as int)),
            decreases n - i,
        {
            if v[i] == '\n' {
                let ghost rest = v@.skip(start as int);
                let ghost pv = strings_view(patterns@);
                proof {
                    assert forall|j: int| 0 <= j < i - start implies rest[j] != '\n' by {
                        assert(rest[j] == v@[start + j]);
                    }
                    lemma_first_newline_at(rest, i - start);
                    assert(rest.take(i - start) =~= v@.subrange(start as int, i as int));
                    assert(rest.skip(i - start + 1) =~= v@.skip(i + 1));
                }
                let mut end = i;
                if end > start && v[end - 1] == '\r' {
                    end = end - 1;
                }
                assert(v@.subrange(start as int, end as int) =~= strip_cr(v@.subrange(start as int, i as int)));
                let (a, b) = trim_bounds(&v, start, end);
                let keep = a < b && v[a] != '#';
                let ghost l = v@.subrange(a as int, b as int);
                proof {
                    let tl = text_lines(rest);
                    assert(tl == seq![strip_cr(rest.take(i - start))].add(text_lines(rest.skip(i - start + 1))));
                    assert(tl.drop_first() =~= text_lines(v@.skip(i + 1)));
                    assert(trim(tl[0]) == l);
                    if a < b {
                        assert(l[0] == v@[a as int]);
                    }
                    assert(keep == is_pattern(l));
                    if keep {
                        assert(ignore_patterns(rest) == seq![l].add(ignore_patterns(v@.skip(i + 1))));
                    } else {
                        assert(ignore_patterns(rest) == ignore_patterns(v@.skip(i + 1)));
                    }
                }
                if keep {
                    let p = string_from_chars(&v, a, b);
                    patterns.push(p);
                    proof {
                        assert(strings_view(patterns@) =~= pv.push(l));
                        assert(pv + seq![l].add(ignore_patterns(v@.skip(i + 1)))
                            =~= pv.push(l) + ignore_patterns(v@.skip(i + 1)));
                    }
                }
                start = i + 1;
            }
            i = i + 1;
        }
        let ghost rest = v@.skip(start as int);
        let ghost pv = strings_view(patterns@);
        let (a, b) = trim_bounds(&v, start, n);
        let keep = a < b && v[a] != '#';
        let ghost l = v@.subrange(a as int, b as int);
        proof {
            assert(rest =~= v@.subrange(start as int, n as int));
            if a < b {
                assert(l[0] == v@[a as int]);
            }
            assert(keep == is_pattern(l));
            if rest.len() == 0 {
                assert(ignore_patterns(rest) =~= Seq::<Seq<char>>::empty());
                assert(l.len() == 0);
            } else {
                assert forall|j: int| 0 <= j < rest.len() implies rest[j] != '\n' by {
                    assert(rest[j] == v@[start + j]);
                }
                lemma_first_newline_at(rest, rest.len() as int);
                assert(text_lines(rest) == seq![rest]);
                assert(seq![rest].drop_first() =~= Seq::<Seq<char>>::empty());
                assert(keep_patterns(Seq::<Seq<char>>::empty()) =~= Seq::<Seq<char>>::empty());
                if keep {
                    assert(ignore_patterns(rest) =~= seq![l]);
                } else {
                    assert(ignore_patterns(rest) =~= Seq::<Seq<char>>::empty());
                }
            }
        }
        if keep {
            let p = string_from_chars(&v, a, b);
            patterns.push(p);
            proof {
                assert(strings_view(patterns@) =~= pv.push(l));
            }
        }
        assert(strings_view(patterns@) =~= ignore_patterns(v@));
        Bitignore { patterns }
    }

    /// Whether the path `rel_path`, whose components are `components` and
    /// whose file name is `file_name`, is ignored: whether some pattern
    /// matches it.
    pub fn matches_path(&self, rel_path: &str, components: &Vec<String>, file_name: &str) -> (r: bool)
        ensures
            r == ignored_by(self@, rel_path@, strings_view(components@), file_name@),
    {
        let ghost comps = strings_view(components@);
        let fname = file_name.to_owned();
        let fname_chars = chars_of(fname.as_str());
        let rel = rel_path.to_owned();
        let n = self.patterns.len();
        for j in 0..n
            invariant
                n == self@.len(),
                comps == strings_view(components@),
                fname@ == file_name@,
                fname_chars@ == fname@,
                rel@ == rel_path@,
                forall|k: int| 0 <= k < j ==> !pattern_matches(#[trigger] self@[k], rel_path@, comps, file_name@),
        {
            let p = &self.patterns[j];
            let pc = chars_of(p.as_str());
            assert(pc@ == self@[j as int]);
            if pc.len() > 0 && pc[pc.len() - 1] == '/' {
                let e = slash_trimmed_len(&pc);
                let dir = string_from_chars(&pc, 0, e);
                assert(pc@.subrange(0, e as int) =~= pc@.take(e as int));
                let m = components.len();
                for c in 0..m
                    invariant
                        m == comps.len(),
                        comps == strings_view(components@),
                        j < n,
                        n == self@.len(),
                        pc@ == self@[j as int],
                        pc@.len() > 0 && pc@.last() == '/',
                        dir@ == trim_end_slashes(pc@),
                        forall|k: int| 0 <= k < c ==> #[trigger] comps[k] != dir@,
                {
                    if components[c] == dir {
                        proof {
                            assert(comps[c as int] == dir@);
                            assert(pattern_matches(self@[j as int], rel_path@, comps, file_name@));
                        }
                        return true;
                    }
                }
                assert(!comps.contains(dir@));
            } else if pc.len() >= 2 && pc[0] == '*' && pc[1] == '.' {
                assert(pc@.skip(1) =~= seq!['.'] + pc@.skip(2));
                if chars_end_with(&fname_chars, &pc, 1) {
                    assert(pattern_matches(self@[j as int], rel_path@, comps, file_name@));
                    return true;
                }
            } else {
                if fname == *p || rel == *p {
                    assert(pattern_matches(self@[j as int], rel_path@, comps, file_name@));
                    return true;
                }
            }
        }
        false
    }

    /// Whether the path `rel_path` is ignored: whether some pattern matches it.
    pub fn is_ignored(&self, rel_path: &str) -> (r: bool)
        ensures
            r == path_ignored(self@, rel_path@),
    {
        let comps = path_components(rel_path);
        let fname = match path_file_name(rel_path) {
            Some(f) => f,
            None => String::new(),
        };
        self.matches_path(rel_path, &comps, fname.as_str())
    }
}

} // verus!
