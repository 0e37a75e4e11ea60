use vstd::prelude::*;
use vstd::std_specs::iter::IteratorSpec;

use super::{Problem, IMPORTANCE_SCALE};

verus! {

broadcast use {vstd::string::axiom_spec_iter, vstd::string::next_postcondition};

/// Relies on std's `FromIterator<char>` for `String`: the string of exactly
/// these characters.
#[verifier::external_body]
fn string_of(c: &[char]) -> (r: String)
    ensures
        r@ == c@,
{
    c.iter().collect()
}

/// `l` without one carriage return at its end.
pub open spec fn strip_cr(l: Seq<char>) -> Seq<char> {
    if l.len() > 0 && l.last() == '\r' {
        l.drop_last()
    } else {
        l
    }
}

/// The lines of `t[start..]`, where the current line began at `start` and
/// `t[start..i]` holds no line feed. A line ends at a line feed, which is
/// dropped with one carriage return before it; the text's end closes a last
/// line that is not empty.
pub open spec fn lines_scan(t: Seq<char>, start: int, i: int) -> Seq<Seq<char>>
    decreases t.len() - i,
{
    if i >= t.len() {
        if start < t.len() {
            seq![t.subrange(start, t.len() as int)]
        } else {
            seq![]
        }
    } else if t[i] == '\n' {
        seq![strip_cr(t.subrange(start, i))] + lines_scan(t, i + 1, i + 1)
    } else {
        lines_scan(t, start, i + 1)
    }
}

/// The lines of a text.
pub open spec fn lines(t: Seq<char>) -> Seq<Seq<char>> {
    lines_scan(t, 0, 0)
}

/// Whether the field separator ` -- ` starts at position `i` of `l`.
pub open spec fn is_sep_at(l: Seq<char>, i: int) -> bool {
    &&& 0 <= i
    &&& i + 4 <= l.len()
    &&& l[i] == ' '
    &&& l[i + 1] == '-'
    &&& l[i + 2] == '-'
    &&& l[i + 3] == ' '
}

/// The fields of `l[start..]`, where the current field began at `start` and
/// `l[start..i]` holds no separator: separators are taken from left to right,
/// without overlap.
pub open spec fn fields_scan(l: Seq<char>, start: int, i: int) -> Seq<Seq<char>>
    decreases l.len() - i,
{
    if i >= l.len() {
        seq![l.subrange(start, l.len() as int)]
    } else if is_sep_at(l, i) {
        seq![l.subrange(start, i)] + fields_scan(l, i + 4, i + 4)
    } else {
        fields_scan(l, start, i + 1)
    }
}

/// The fields of a line, split at each ` -- `.
pub open spec fn fields(l: Seq<char>) -> Seq<Seq<char>> {
    fields_scan(l, 0, 0)
}

/// A line is well formed when it is blank or holds exactly two fields.
pub open spec fn line_ok(l: Seq<char>) -> bool {
    l.len() == 0 || fields(l).len() == 2
}

/// The lines that are not blank.
pub open spec fn non_blank(ls: Seq<Seq<char>>) -> Seq<Seq<char>> {
    ls.filter(|l: Seq<char>| l.len() > 0)
}

/// A line of the corpus that does not hold exactly two fields.
#[derive(Debug, Clone, Copy, PartialEq, Eq)]
pub struct CorpusError {
    /// The line's number, counting from one.
    pub line: usize,
    /// The number of fields found on it.
    pub fields: usize,
}

/// Where the next field separator at or after `i` in `t[a..b]` starts, as an
/// offset from `a`, or `b - a` when there is none.
fn next_sep(t: &Vec<char>, a: usize, b: usize, i: usize) -> (r: usize)
    requires
        a <= b <= t@.len(),
        i <= b - a,
    ensures
        i <= r <= b - a,
        r < b - a ==> is_sep_at(t@.subrange(a as int, b as int), r as int),
        forall|k: int| i <= k < r ==> !is_sep_at(t@.subrange(a as int, b as int), k),
{
    let ghost l = t@.subrange(a as int, b as int);
    let n = b - a;
    let mut k = i;
    while k < n
        invariant
            a <= b <= t@.len(),
            n == b - a,
            l == t@.subrange(a as int, b as int),
            i <= k <= n,
            forall|j: int| i <= j < k ==> !is_sep_at(l, j),
        decreases n - k,
    {
        if n - k >= 4 && t[a + k] == ' ' && t[a + k + 1] == '-' && t[a + k + 2] == '-' && t[a + k
            + 3] == ' ' {
            return k;
        }
        k = k + 1;
    }
    k
}

/// Skipping positions that start no separator leaves the fields unchanged.
proof fn lemma_fields_skip(l: Seq<char>, start: int, i: int, k: int)
    requires
        0 <= start <= i <= k <= l.len(),
        forall|j: int| i <= j < k ==> !is_sep_at(l, j),
    ensures
        fields_scan(l, start, i) == fields_scan(l, start, k),
    decreases k - i,
{
    if i < k {
        lemma_fields_skip(l, start, i + 1, k);
    }
}

/// Splits the line `t[a..b]` into fields: their number, and where the first
/// two lie in `t`.
fn split_line(t: &Vec<char>, a: usize, b: usize) -> (r: (usize, (usize, usize), (usize, usize)))
    requires
        a <= b <= t@.len(),
    ensures
        ({
            let f = fields(t@.subrange(a as int, b as int));
            &&& r.0 == f.len()
            &&& f.len() >= 1 ==> a <= r.1.0 <= r.1.1 <= b && f[0] == t@.subrange(
                r.1.0 as int,
                r.1.1 as int,
            )
            &&& f.len() >= 2 ==> a <= r.2.0 <= r.2.1 <= b && f[1] == t@.subrange(
                r.2.0 as int,
                r.2.1 as int,
            )
        }),
{
    let ghost l = t@.subrange(a as int, b as int);
    let n = b - a;
    let ghost mut done: Seq<Seq<char>> = seq![];
    let mut count: usize = 0;
    let mut f0: (usize, usize) = (a, a);
    let mut f1: (usize, usize) = (a, a);
    let mut start: usize = 0;
    loop
        invariant
            a <= b <= t@.len(),
            n == b - a,
            l == t@.subrange(a as int, b as int),
            start <= n,
            count == done.len(),
            4 * count <= start,
            fields(l) == done + fields_scan(l, start as int, start as int),
            done.len() >= 1 ==> a <= f0.0 <= f0.1 <= b && done[0] == t@.subrange(
                f0.0 as int,
                f0.1 as int,
            ),
            done.len() >= 2 ==> a <= f1.0 <= f1.1 <= b && done[1] == t@.subrange(
                f1.0 as int,
                f1.1 as int,
            ),
        decreases n - start + 1,
    {
        let k = next_sep(t, a, b, start);
        proof {
            lemma_fields_skip(l, start as int, start as int, k as int);
        }
        let range = (a + start, a + k);
        assert(l.subrange(start as int, k as int) == t@.subrange(range.0 as int, range.1 as int));
        if count == 0 {
            f0 = range;
        } else if count == 1 {
            f1 = range;
        }
        proof {
            done = done.push(l.subrange(start as int, k as int));
        }
        count = count + 1;
        if k >= n {
            assert(fields(l) == done);
            return (count, f0, f1);
        }
        assert(fields_scan(l, start as int, k as int) == seq![l.subrange(start as int, k as int)]
            + fields_scan(l, k + 4, k + 4));
        assert(done.drop_last() + fields_scan(l, start as int, start as int) == done
            + fields_scan(l, k + 4, k + 4));
        start = k + 4;
    }
}

/// Adding a line adds it to the lines that are not blank exactly when it is
/// not blank itself.
proof fn lemma_non_blank_push(ls: Seq<Seq<char>>, l: Seq<char>)
    ensures
        non_blank(ls.push(l)) == if l.len() > 0 {
            non_blank(ls).push(l)
        } else {
            non_blank(ls)
        },
{
    reveal(Seq::filter);
    assert(ls.push(l).drop_last() =~= ls);
}

/// Skipping characters that are no line feed leaves the lines unchanged.
proof fn lemma_lines_skip(t: Seq<char>, start: int, i: int)
    requires
        0 <= start <= i < t.len(),
        t[i] != '\n',
    ensures
        lines_scan(t, start, i) == lines_scan(t, start, i + 1),
{
}

/// What `scan_entries` promises of the entries it found in the lines `done`.
pub open spec fn entries_match(
    t: Seq<char>,
    done: Seq<Seq<char>>,
    entries: Seq<(usize, usize, usize, usize)>,
) -> bool {
    let nb = non_blank(done);
    &&& entries.len() == nb.len()
    &&& forall|k: int|
        0 <= k < entries.len() ==> {
            let e = #[trigger] entries[k];
            &&& e.0 <= e.1 <= t.len()
            &&& e.2 <= e.3 <= t.len()
            &&& fields(nb[k]).len() == 2
            &&& fields(nb[k])[0] == t.subrange(e.0 as int, e.1 as int)
            &&& fields(nb[k])[1] == t.subrange(e.2 as int, e.3 as int)
        }
}

/// Checks the line `t[a..b]`, the line numbered `line_no + 1`, and adds the
/// places of its two fields to `entries` when it is not blank.
fn take_line(
    t: &Vec<char>,
    a: usize,
    b: usize,
    line_no: usize,
    entries: &mut Vec<(usize, usize, usize, usize)>,
    Ghost(done): Ghost<Seq<Seq<char>>>,
) -> (r: Option<CorpusError>)
    requires
        a <= b <= t@.len(),
        line_no < usize::MAX,
        entries_match(t@, done, old(entries)@),
    ensures
        ({
            let l = t@.subrange(a as int, b as int);
            match r {
                None => line_ok(l) && entries_match(t@, done.push(l), final(entries)@),
                Some(e) => !line_ok(l) && e.line == line_no + 1 && e.fields == fields(l).len(),
            }
        }),
{
    let ghost l = t@.subrange(a as int, b as int);
    proof {
        lemma_non_blank_push(done, l);
    }
    if a == b {
        return None;
    }
    let (count, f0, f1) = split_line(t, a, b);
    if count != 2 {
        return Some(CorpusError { line: line_no + 1, fields: count });
    }
    entries.push((f0.0, f0.1, f1.0, f1.1));
    assert(non_blank(done.push(l)) == non_blank(done).push(l));
    None
}

/// Finds, line by line, where the two fields of each line that is not blank
/// lie, or the first line that is not blank and does not hold two fields.
fn scan_entries(t: &Vec<char>) -> (r: Result<Vec<(usize, usize, usize, usize)>, CorpusError>)
    ensures
        ({
            let ls = lines(t@);
            match r {
                Ok(v) => {
                    &&& forall|k: int| 0 <= k < ls.len() ==> line_ok(#[trigger] ls[k])
                    &&& entries_match(t@, ls, v@)
                },
                Err(e) => {
                    &&& 1 <= e.line <= ls.len()
                    &&& !line_ok(ls[e.line - 1])
                    &&& e.fields == fields(ls[e.line - 1]).len()
                    &&& forall|k: int| 0 <= k < e.line - 1 ==> line_ok(#[trigger] ls[k])
                },
            }
        }),
{
    let n = t.len();
    let mut entries: Vec<(usize, usize, usize, usize)> = Vec::new();
    let ghost mut done: Seq<Seq<char>> = seq![];
    let mut start: usize = 0;
    let mut line_no: usize = 0;
    let mut i: usize = 0;
    proof {
        reveal(Seq::filter);
    }
    while i < n
        invariant
            n == t@.len(),
            start <= i <= n,
            line_no == done.len(),
            line_no <= start,
            lines(t@) == done + lines_scan(t@, start as int, i as int),
            forall|k: int| 0 <= k < done.len() ==> line_ok(#[trigger] done[k]),
            entries_match(t@, done, entries@),
        decreases n - i,
    {
        if t[i] == '\n' {
            let ghost rest = lines_scan(t@, (i + 1) as int, (i + 1) as int);
            let b: usize = if i > start && t[i - 1] == '\r' {
                i - 1
            } else {
                i
            };
            let ghost l = t@.subrange(start as int, b as int);
            assert(l == strip_cr(t@.subrange(start as int, i as int)));
            assert(lines_scan(t@, start as int, i as int) == seq![l] + rest);
            match take_line(t, start, b, line_no, &mut entries, Ghost(done)) {
                Some(e) => {
                    assert(lines(t@)[done.len() as int] == l);
                    assert forall|k: int| 0 <= k < e.line - 1 implies line_ok(
                        #[trigger] lines(t@)[k],
                    ) by {
                        assert(lines(t@)[k] == done[k]);
                    }
                    return Err(e);
                },
                None => {},
            }
            proof {
                assert(done + (seq![l] + rest) == done.push(l) + rest);
                done = done.push(l);
            }
            line_no = line_no + 1;
            start = i + 1;
        } else {
            proof {
                lemma_lines_skip(t@, start as int, i as int);
            }
        }
        i = i + 1;
    }
    if start < n {
        let ghost l = t@.subrange(start as int, n as int);
        assert(lines(t@) == done + seq![l]);
        match take_line(t, start, n, line_no, &mut entries, Ghost(done)) {
            Some(e) => {
                assert(lines(t@)[done.len() as int] == l);
                assert forall|k: int| 0 <= k < e.line - 1 implies line_ok(#[trigger] lines(t@)[k]) by {
                    assert(lines(t@)[k] == done[k]);
                }
                return Err(e);
            },
            None => {},
        }
        proof {
            done = done.push(l);
        }
    }
    assert(lines(t@) == done);
    Ok(entries)
}

impl Problem {
    /// Reads a corpus: each line that is not blank holds a prompt and its
    /// expected response separated by ` -- `. Cards get the identities 0, 1, ...
    /// in line order and an equal share of importance, `IMPORTANCE_SCALE` divided
    /// by their number. The first line that is not blank and does not hold
    /// exactly two fields is reported, and nothing is loaded.
    pub fn all_new(text: &str) -> (r: Result<Vec<Problem>, CorpusError>)
        ensures
            ({
                let ls = lines(text@);
                let nb = non_blank(ls);
                match r {
                    Ok(v) => {
                        &&& forall|k: int| 0 <= k < ls.len() ==> line_ok(#[trigger] ls[k])
                        &&& v@.len() == nb.len()
                        &&& forall|j: int|
                            0 <= j < v@.len() ==> {
                                &&& (#[trigger] v@[j]).id_spec() == j
                                &&& v@[j].from_spec() == fields(nb[j])[0]
                                &&& v@[j].to_spec() == fields(nb[j])[1]
                                &&& v@[j].p_spec() == IMPORTANCE_SCALE / (nb.len() as u64)
                                &&& v@[j].history_spec()@.len() == 0
                            }
                    },
                    Err(e) => {
                        &&& 1 <= e.line <= ls.len()
                        &&& !line_ok(ls[e.line - 1])
                        &&& e.fields == fields(ls[e.line - 1]).len()
                        &&& forall|k: int| 0 <= k < e.line - 1 ==> line_ok(#[trigger] ls[k])
                    },
                }
            }),
    {
        let t = chars_of(text);
        let entries = match scan_entries(&t) {
            Ok(e) => e,
            Err(e) => {
                return Err(e);
            },
        };
        let n = entries.len();
        let ghost nb = non_blank(lines(t@));
        let p: u64 = if n > 0 {
            IMPORTANCE_SCALE / (n as u64)
        } else {
            0
        };
        let mut v: Vec<Problem> = Vec::new();
        let mut j: usize = 0;
        while j < n
            invariant
                n == entries@.len(),
                n == nb.len(),
                t@ == text@,
                nb == non_blank(lines(t@)),
                n > 0 ==> p == IMPORTANCE_SCALE / (n as u64),
                p <= IMPORTANCE_SCALE,
                j <= n,
                v@.len() == j,
                forall|k: int|
                    0 <= k < n ==> {
                        let e = #[trigger] entries@[k];
                        &&& e.0 <= e.1 <= t@.len()
                        &&& e.2 <= e.3 <= t@.len()
                        &&& fields(nb[k]).len() == 2
                        &&& fields(nb[k])[0] == t@.subrange(e.0 as int, e.1 as int)
                        &&& fields(nb[k])[1] == t@.subrange(e.2 as int, e.3 as int)
                    },
                forall|k: int|
                    0 <= k < j ==> {
                        &&& (#[trigger] v@[k]).id_spec() == k
                        &&& v@[k].from_spec() == fields(nb[k])[0]
                        &&& v@[k].to_spec() == fields(nb[k])[1]
                        &&& v@[k].p_spec() == p
                        &&& v@[k].history_spec()@.len() == 0
                    },
            decreases n - j,
        {
            let e = entries[j];
            let from = string_of(&t.as_slice()[e.0..e.1]);
            let to = string_of(&t.as_slice()[e.2..e.3]);
            assert(n > 0);
            let card = Problem::new(j, from.as_str(), to.as_str(), p);
            v.push(card);
            j = j + 1;
        }
        Ok(v)
    }
}

/// The characters of a text, in order.
fn chars_of(text: &str) -> (r: Vec<char>)
    ensures
        r@ == text@,
{
    let mut it = text.chars();
    let mut v: Vec<char> = Vec::new();
    loop
        invariant
            v@ + it.remaining() == text@,
        decreases text@.len() - v@.len(),
    {
        match it.next() {
            Some(c) => {
                v.push(c);
            },
            None => {
                return v;
            },
        }
    }
}

} // verus!
