//! Display of predicate source text: selecting and formatting the lines
//! around a constraint. The constraint under debug is addressed by its line
//! number, found by counting `constraint `-initial lines; colouring is left
//! to the presentation layer.

use vstd::prelude::*;
use vstd::string::StringExecFns;

use crate::text::{
    chars_eq, chars_range, chars_string, chars_views, split_chars, split_spec, str_chars,
    trim_chars, trim_spec,
};

verus! {

/// Source text for the predicate under debug: surrounding code, the
/// predicate's own text, and the line of the constraint being stepped.
#[derive(Debug, Clone, PartialEq, Eq, PartialOrd, Ord, Hash)]
pub struct Source {
    /// Code surrounding the predicate.
    pub other: String,
    /// The predicate's source text.
    pub predicate: String,
    /// The line of the constraint under debug, if known.
    pub constraint_line: Option<usize>,
}

/// How much of the source to show.
#[derive(Debug, Clone, Copy)]
pub enum ShowOutput {
    /// Surrounding code and the predicate.
    All,
    /// The predicate only.
    Predicate,
    /// The predicate with other constraints elided.
    Constraint,
    /// The constraint's line alone.
    ConstraintOnly,
}

impl Source {
    /// An empty source: no text, no constraint line.
    pub fn new() -> (r: Source)
        ensures
            r.other@ == Seq::<char>::empty(),
            r.predicate@ == Seq::<char>::empty(),
            r.constraint_line is None,
    {
        Source { other: String::new(), predicate: String::new(), constraint_line: None }
    }
}

impl Default for Source {
    /// An empty source: no text, no constraint line.
    fn default() -> (r: Source)
        ensures
            r.other@ == Seq::<char>::empty(),
            r.predicate@ == Seq::<char>::empty(),
            r.constraint_line is None,
    {
        Source::new()
    }
}

/// A line piece with a trailing carriage return removed.
pub open spec fn strip_cr(p: Seq<char>) -> Seq<char> {
    if p.len() > 0 && p.last() == '\r' {
        p.drop_last()
    } else {
        p
    }
}

/// The lines of a text: pieces between newlines, each without a trailing
/// carriage return, with no final empty line for text ending in a newline.
pub open spec fn lines_spec(s: Seq<char>) -> Seq<Seq<char>> {
    if s.len() == 0 {
        Seq::empty()
    } else {
        let ps = split_spec(s, '\n');
        let ps2 = if s.last() == '\n' {
            ps.drop_last()
        } else {
            ps
        };
        ps2.map_values(|p: Seq<char>| strip_cr(p))
    }
}

/// Split a text into lines.
#[verifier::loop_isolation(false)]
pub fn lines_chars(v: &Vec<char>) -> (r: Vec<Vec<char>>)
    ensures
        chars_views(r@) == lines_spec(v@),
{
    if v.len() == 0 {
        let r: Vec<Vec<char>> = Vec::new();
        proof {
            assert(chars_views(r@) =~= lines_spec(v@));
        }
        return r;
    }
    let mut ps = split_chars(v, '\n');
    let ghost ps0 = chars_views(ps@);
    if v[v.len() - 1] == '\n' {
        proof {
            assert(v@.last() == '\n');
            crate::text::lemma_find_spec(v@, '\n');
            assert(split_spec(v@, '\n').len() >= 1);
            assert(ps@.len() >= 1);
        }
        ps.pop();
        proof {
            assert(chars_views(ps@) =~= ps0.drop_last());
        }
    }
    let ghost kept = chars_views(ps@);
    let mut r: Vec<Vec<char>> = Vec::new();
    let mut i: usize = 0;
    while i < ps.len()
        invariant
            0 <= i <= ps@.len(),
            kept == chars_views(ps@),
            chars_views(r@) == kept.map_values(|p: Seq<char>| strip_cr(p)).take(i as int),
        decreases ps@.len() - i,
    {
        let piece = &ps[i];
        let stripped = if piece.len() > 0 && piece[piece.len() - 1] == '\r' {
            chars_range(piece, 0, piece.len() - 1)
        } else {
            chars_range(piece, 0, piece.len())
        };
        proof {
            assert(piece@.subrange(0, piece@.len() as int) =~= piece@);
            if piece@.len() > 0 && piece@.last() == '\r' {
                assert(piece@.subrange(0, piece@.len() - 1) =~= piece@.drop_last());
            }
            assert(stripped@ == strip_cr(kept[i as int]));
            crate::text::lemma_chars_views_push(r@, stripped);
            assert(kept.map_values(|p: Seq<char>| strip_cr(p)).take(i + 1) =~= kept.map_values(
                |p: Seq<char>| strip_cr(p),
            ).take(i as int).push(strip_cr(kept[i as int])));
        }
        r.push(stripped);
        i += 1;
    }
    proof {
        let mapped = kept.map_values(|p: Seq<char>| strip_cr(p));
        assert(mapped.take(mapped.len() as int) =~= mapped);
    }
    r
}

/// The keyword that begins a constraint's line.
pub open spec fn constraint_kw() -> Seq<char> {
    seq!['c', 'o', 'n', 's', 't', 'r', 'a', 'i', 'n', 't', ' ']
}

/// Whether a line, once trimmed, begins a constraint.
pub open spec fn is_constraint_line(l: Seq<char>) -> bool {
    let t = trim_spec(l);
    t.len() >= constraint_kw().len() && t.subrange(0, constraint_kw().len() as int)
        == constraint_kw()
}

/// Whether `v` begins with the constraint keyword.
fn starts_constraint(v: &Vec<char>) -> (r: bool)
    ensures
        r == is_constraint_line(v@),
{
    let t = trim_chars(v);
    let mut kw: Vec<char> = Vec::new();
    kw.push('c');
    kw.push('o');
    kw.push('n');
    kw.push('s');
    kw.push('t');
    kw.push('r');
    kw.push('a');
    kw.push('i');
    kw.push('n');
    kw.push('t');
    kw.push(' ');
    proof {
        assert(kw@ =~= constraint_kw());
    }
    if t.len() < kw.len() {
        return false;
    }
    let pre = chars_range(&t, 0, 11);
    chars_eq(&pre, kw.as_slice())
}

/// The number of constraint lines among `ls`.
pub open spec fn count_constraints(ls: Seq<Seq<char>>) -> int
    decreases ls.len(),
{
    if ls.len() == 0 {
        0
    } else {
        (if is_constraint_line(ls[0]) {
            1int
        } else {
            0int
        }) + count_constraints(ls.drop_first())
    }
}

/// Taking one more line counts it when it is a constraint line.
proof fn lemma_count_take(ls: Seq<Seq<char>>, i: int)
    requires
        0 <= i < ls.len(),
    ensures
        count_constraints(ls.take(i + 1)) == count_constraints(ls.take(i)) + (
        if is_constraint_line(ls[i]) {
            1int
        } else {
            0int
        }),
    decreases i,
{
    if i == 0 {
        assert(ls.take(1)[0] == ls[0]);
        assert(ls.take(1).drop_first() =~= Seq::<Seq<char>>::empty());
        assert(ls.take(0) =~= Seq::<Seq<char>>::empty());
    } else {
        let dd = ls.drop_first();
        assert(ls.take(i + 1)[0] == ls[0]);
        assert(ls.take(i + 1).drop_first() =~= dd.take(i));
        assert(ls.take(i)[0] == ls[0]);
        assert(ls.take(i).drop_first() =~= dd.take(i - 1));
        assert(dd[i - 1] == ls[i]);
        lemma_count_take(dd, i - 1);
    }
}

impl Source {
    /// The source with the predicate text replaced.
    pub fn with_predicate(self, predicate: String) -> (r: Source)
        ensures
            r.predicate@ == predicate@,
            r.other@ == self.other@,
            r.constraint_line == self.constraint_line,
    {
        Source { predicate, ..self }
    }

    /// The source with the predicate text replaced and the constraint line
    /// found by counting `constraint `-initial lines: the line set is the
    /// first whose trimmed text begins the `constraint_num`-th constraint,
    /// or none when the predicate has fewer constraints.
    #[verifier::loop_isolation(false)]
    pub fn with_predicate_find_line(self, predicate: String, constraint_num: usize) -> (r: Source)
        ensures
            r.predicate@ == predicate@,
            r.other@ == self.other@,
            ({
                let ls = lines_spec(predicate@);
                match r.constraint_line {
                    Some(i) => {
                        &&& (i as int) < ls.len()
                        &&& is_constraint_line(ls[i as int])
                        &&& count_constraints(ls.take(i as int)) == constraint_num
                    },
                    None => forall|j: int|
                        0 <= j < ls.len() ==> !(is_constraint_line(#[trigger] ls[j])
                            && count_constraints(ls.take(j)) == constraint_num),
                }
            }),
    {
        let chars = str_chars(predicate.as_str());
        let ls = lines_chars(&chars);
        let ghost lsv = lines_spec(predicate@);
        proof {
            assert(lsv.take(0) =~= Seq::<Seq<char>>::empty());
        }
        let mut constraint_line: Option<usize> = None;
        let mut count: usize = 0;
        let mut i: usize = 0;
        while i < ls.len()
            invariant
                0 <= i <= ls@.len(),
                lsv == chars_views(ls@),
                count as int == count_constraints(lsv.take(i as int)),
                count <= i,
                constraint_line is None,
                forall|j: int|
                    0 <= j < i ==> !(is_constraint_line(#[trigger] lsv[j]) && count_constraints(
                        lsv.take(j),
                    ) == constraint_num),
            decreases ls@.len() - i,
        {
            proof {
                lemma_count_take(lsv, i as int);
            }
            if starts_constraint(&ls[i]) {
                if count == constraint_num {
                    constraint_line = Some(i);
                    return Source { predicate, constraint_line, ..self };
                }
                count += 1;
            }
            i += 1;
        }
        Source { predicate, constraint_line, ..self }
    }

    /// The source with the constraint line set directly.
    pub fn with_constraint_line_number(self, constraint_line: usize) -> (r: Source)
        ensures
            r.constraint_line == Some(constraint_line),
            r.other@ == self.other@,
            r.predicate@ == self.predicate@,
    {
        Source { constraint_line: Some(constraint_line), ..self }
    }

    /// The source with the surrounding code replaced.
    pub fn with_other_code(self, other: String) -> (r: Source)
        ensures
            r.other@ == other@,
            r.predicate@ == self.predicate@,
            r.constraint_line == self.constraint_line,
    {
        Source { other, ..self }
    }
}

/// Lines rejoined, each with a newline.
pub open spec fn lines_joined(ls: Seq<Seq<char>>) -> Seq<char>
    decreases ls.len(),
{
    if ls.len() == 0 {
        Seq::empty()
    } else {
        ls[0] + "\n"@ + lines_joined(ls.drop_first())
    }
}

/// The predicate with a known constraint line rejoined line by line; without
/// one, the text as given. (The known line is for presentation layers to
/// highlight.)
pub open spec fn format_predicate_spec(pred: Seq<char>, cl: Option<usize>) -> Seq<char> {
    match cl {
        None => pred,
        Some(_) => lines_joined(lines_spec(pred)),
    }
}

/// Lines rejoined with every constraint line elided except the one at
/// `keep`.
pub open spec fn elide_lines(ls: Seq<Seq<char>>, keep: int) -> Seq<char>
    decreases ls.len(),
{
    if ls.len() == 0 {
        Seq::empty()
    } else {
        (if keep == 0 {
            ls[0] + "\n"@
        } else if is_constraint_line(ls[0]) {
            Seq::empty()
        } else {
            ls[0] + "\n"@
        }) + elide_lines(ls.drop_first(), keep - 1)
    }
}

/// The predicate with other constraints elided; without a known constraint
/// line, the text as given.
pub open spec fn format_constraint_spec(pred: Seq<char>, cl: Option<usize>) -> Seq<char> {
    match cl {
        None => pred,
        Some(i) => elide_lines(lines_spec(pred), i as int),
    }
}

/// The constraint's line alone, trimmed; the whole text when the line is
/// unknown or out of range.
pub open spec fn constraint_only_spec(pred: Seq<char>, cl: Option<usize>) -> Seq<char> {
    match cl {
        None => pred,
        Some(i) => {
            let ls = lines_spec(pred);
            if (i as int) < ls.len() {
                trim_spec(ls[i as int])
            } else {
                pred
            }
        },
    }
}

/// Rejoin the predicate's lines.
#[verifier::loop_isolation(false)]
fn format_predicate(predicate: &String, constraint_line: &Option<usize>) -> (r: String)
    ensures
        r@ == format_predicate_spec(predicate@, *constraint_line),
{
    match constraint_line {
        None => clone_string(predicate),
        Some(_) => {
            let chars = str_chars(predicate.as_str());
            let ls = lines_chars(&chars);
            let ghost lsv = lines_spec(predicate@);
            let mut out = String::new();
            proof {
                assert(lsv.skip(0) =~= lsv);
            }
            let mut i: usize = 0;
            while i < ls.len()
                invariant
                    0 <= i <= ls@.len(),
                    lsv == chars_views(ls@),
                    out@ + lines_joined(lsv.skip(i as int)) == lines_joined(lsv),
                decreases ls@.len() - i,
            {
                proof {
                    assert(lsv.skip(i as int)[0] == lsv[i as int]);
                    assert(lsv.skip(i as int).drop_first() =~= lsv.skip(i + 1));
                }
                let line = chars_string(&ls[i]);
                out.append(line.as_str());
                out.append("\n");
                proof {
                    assert(out@ + lines_joined(lsv.skip(i + 1)) =~= lines_joined(lsv));
                }
                i += 1;
            }
            proof {
                assert(lsv.skip(lsv.len() as int) =~= Seq::<Seq<char>>::empty());
                assert(out@ + Seq::<char>::empty() =~= out@);
            }
            out
        },
    }
}

/// Rejoin the predicate's lines, eliding every constraint but the known one.
#[verifier::loop_isolation(false)]
fn format_constraint(predicate: &String, constraint_line: &Option<usize>) -> (r: String)
    ensures
        r@ == format_constraint_spec(predicate@, *constraint_line),
{
    match constraint_line {
        None => clone_string(predicate),
        Some(line_num) => {
            let line_num = *line_num;
            let chars = str_chars(predicate.as_str());
            let ls = lines_chars(&chars);
            let ghost lsv = lines_spec(predicate@);
            let mut out = String::new();
            proof {
                assert(lsv.skip(0) =~= lsv);
            }
            let mut i: usize = 0;
            while i < ls.len()
                invariant
                    0 <= i <= ls@.len(),
                    lsv == chars_views(ls@),
                    out@ + elide_lines(lsv.skip(i as int), line_num - i) == elide_lines(
                        lsv,
                        line_num as int,
                    ),
                decreases ls@.len() - i,
            {
                proof {
                    assert(lsv.skip(i as int)[0] == lsv[i as int]);
                    assert(lsv.skip(i as int).drop_first() =~= lsv.skip(i + 1));
                }
                let is_kw = starts_constraint(&ls[i]);
                if i == line_num || !is_kw {
                    let line = chars_string(&ls[i]);
                    out.append(line.as_str());
                    out.append("\n");
                }
                proof {
                    assert(out@ + elide_lines(lsv.skip(i + 1), line_num - (i + 1)) =~= elide_lines(
                        lsv,
                        line_num as int,
                    ));
                }
                i += 1;
            }
            proof {
                assert(lsv.skip(lsv.len() as int) =~= Seq::<Seq<char>>::empty());
                assert(out@ + Seq::<char>::empty() =~= out@);
            }
            out
        },
    }
}

/// The constraint's line alone, trimmed.
pub fn constraint_only(predicate: &String, constraint_line: &Option<usize>) -> (r: String)
    ensures
        r@ == constraint_only_spec(predicate@, *constraint_line),
{
    match constraint_line {
        None => clone_string(predicate),
        Some(line_num) => {
            let line_num = *line_num;
            let chars = str_chars(predicate.as_str());
            let ls = lines_chars(&chars);
            if line_num < ls.len() {
                let t = trim_chars(&ls[line_num]);
                proof {
                    assert(chars_views(ls@)[line_num as int] == ls@[line_num as int]@);
                }
                chars_string(&t)
            } else {
                clone_string(predicate)
            }
        },
    }
}

/// Clone a string; the clone holds the same characters.
fn clone_string(s: &String) -> (r: String)
    ensures
        r@ == s@,
{
    s.clone()
}

/// What `show_code` renders for a source and a selection.
pub open spec fn show_code_spec(source: Option<Source>, show: ShowOutput) -> Seq<char> {
    match source {
        Some(src) => match show {
            ShowOutput::All => src.other@ + "\n"@ + format_predicate_spec(
                src.predicate@,
                src.constraint_line,
            ),
            ShowOutput::Predicate => format_predicate_spec(src.predicate@, src.constraint_line),
            ShowOutput::Constraint => format_constraint_spec(src.predicate@, src.constraint_line),
            ShowOutput::ConstraintOnly => constraint_only_spec(
                src.predicate@,
                src.constraint_line,
            ),
        },
        None => "No source code available."@,
    }
}

/// Render the source as selected: everything, the predicate, the predicate
/// with other constraints elided, or the constraint's line alone. Without a
/// source there is nothing to show.
pub fn show_code(source: &Option<Source>, show: ShowOutput) -> (r: String)
    ensures
        r@ == show_code_spec(*source, show),
{
    match source {
        Some(src) => match show {
            ShowOutput::All => {
                let mut out = clone_string(&src.other);
                out.append("\n");
                let fp = format_predicate(&src.predicate, &src.constraint_line);
                out.append(fp.as_str());
                out
            },
            ShowOutput::Predicate => format_predicate(&src.predicate, &src.constraint_line),
            ShowOutput::Constraint => format_constraint(&src.predicate, &src.constraint_line),
            ShowOutput::ConstraintOnly => constraint_only(&src.predicate, &src.constraint_line),
        },
        None => {
            let mut out = String::new();
            out.append("No source code available.");
            out
        },
    }
}

/// Which selection a command word names: `a`/`all`, `p`/`predicate`,
/// `c`/`constraint`, `co`/`constraint only`; anything else shows the
/// default, the elided-constraint view.
pub open spec fn show_output_of(value: Option<&str>) -> ShowOutput {
    match value {
        Some(s) => {
            if s@ == "a"@ || s@ == "all"@ {
                ShowOutput::All
            } else if s@ == "p"@ || s@ == "predicate"@ {
                ShowOutput::Predicate
            } else if s@ == "c"@ || s@ == "constraint"@ {
                ShowOutput::Constraint
            } else if s@ == "co"@ || s@ == "constraint only"@ {
                ShowOutput::ConstraintOnly
            } else {
                ShowOutput::Constraint
            }
        },
        None => ShowOutput::Constraint,
    }
}

/// Whether two strings hold the same characters.
fn str_eq(a: &str, b: &str) -> (r: bool)
    ensures
        r == (a@ == b@),
{
    let na = a.unicode_len();
    let nb = b.unicode_len();
    if na != nb {
        return false;
    }
    let mut i: usize = 0;
    while i < na
        invariant
            0 <= i <= na,
            na == a@.len(),
            na == b@.len(),
            forall|j: int| 0 <= j < i ==> a@[j] == b@[j],
        decreases na - i,
    {
        if a.get_char(i) != b.get_char(i) {
            return false;
        }
        i += 1;
    }
    assert(a@ =~= b@);
    true
}

impl Default for ShowOutput {
    /// The default selection: the elided-constraint view.
    fn default() -> (r: ShowOutput)
        ensures
            r is Constraint,
    {
        ShowOutput::Constraint
    }
}

impl From<Option<&str>> for ShowOutput {
    /// The selection a command word names.
    fn from(value: Option<&str>) -> (r: ShowOutput) {
        match value {
            Some(s) => {
                if str_eq(s, "a") || str_eq(s, "all") {
                    ShowOutput::All
                } else if str_eq(s, "p") || str_eq(s, "predicate") {
                    ShowOutput::Predicate
                } else if str_eq(s, "c") || str_eq(s, "constraint") {
                    ShowOutput::Constraint
                } else if str_eq(s, "co") || str_eq(s, "constraint only") {
                    ShowOutput::ConstraintOnly
                } else {
                    ShowOutput::Constraint
                }
            },
            None => ShowOutput::Constraint,
        }
    }
}

impl vstd::std_specs::convert::FromSpecImpl<Option<&str>> for ShowOutput {
    open spec fn obeys_from_spec() -> bool {
        true
    }

    open spec fn from_spec(value: Option<&str>) -> ShowOutput {
        show_output_of(value)
    }
}
} // verus!
