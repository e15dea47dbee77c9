//! Flat Pango markup: a sequence of text runs, each with an optional
//! foreground color. Composition is concatenation; escaping happens once,
//! when the runs are rendered.

use vstd::prelude::*;

use crate::color::{hex_text, Rgb8};
use crate::text::{push_char, push_str};

verus! {

broadcast use vstd::string::group_string_axioms;

/// One run of text with an optional foreground color.
#[derive(Debug)]
pub struct Run {
    pub text: String,
    pub fg: Option<Rgb8>,
}

/// What a run holds: its characters and its color.
pub type RunView = (Seq<char>, Option<Rgb8>);

impl View for Run {
    type V = RunView;

    open spec fn view(&self) -> RunView {
        (self.text@, self.fg)
    }
}

impl Clone for Run {
    fn clone(&self) -> (copy: Self)
        ensures
            copy@ == self@,
    {
        Run { text: self.text.clone(), fg: self.fg }
    }
}

/// A flat sequence of colored text runs.
#[derive(Debug)]
pub struct Markup {
    runs: Vec<Run>,
}

impl View for Markup {
    type V = Seq<RunView>;

    closed spec fn view(&self) -> Seq<RunView> {
        self.runs@.map_values(|r: Run| r@)
    }
}

/// One uncolored run.
pub open spec fn plain(t: Seq<char>) -> Seq<RunView> {
    seq![(t, None::<Rgb8>)]
}

/// Gives every uncolored run the color `c`; colored runs keep theirs.
pub open spec fn paint(runs: Seq<RunView>, c: Rgb8) -> Seq<RunView> {
    runs.map_values(|r: RunView| if r.1 is None { (r.0, Some(c)) } else { r })
}

/// The runs of `parts`, with the runs of `sep` between neighbours.
pub open spec fn join_runs(sep: Seq<RunView>, parts: Seq<Seq<RunView>>) -> Seq<RunView>
    decreases parts.len(),
{
    if parts.len() == 0 {
        Seq::empty()
    } else if parts.len() == 1 {
        parts[0]
    } else {
        join_runs(sep, parts.drop_last()) + sep + parts.last()
    }
}

/// The Pango entity of one character, or the character itself.
pub open spec fn escape_char(c: char) -> Seq<char> {
    if c == '&' {
        seq!['&', 'a', 'm', 'p', ';']
    } else if c == '<' {
        seq!['&', 'l', 't', ';']
    } else if c == '>' {
        seq!['&', 'g', 't', ';']
    } else if c == '\'' {
        seq!['&', 'a', 'p', 'o', 's', ';']
    } else if c == '"' {
        seq!['&', 'q', 'u', 'o', 't', ';']
    } else {
        seq![c]
    }
}

/// Text with every Pango metacharacter replaced by its entity.
pub open spec fn escape(t: Seq<char>) -> Seq<char>
    decreases t.len(),
{
    if t.len() == 0 {
        Seq::empty()
    } else {
        escape(t.drop_last()) + escape_char(t.last())
    }
}

/// `<span color='#RRGGBB'>`.
pub open spec fn span_open(c: Rgb8) -> Seq<char> {
    seq!['<', 's', 'p', 'a', 'n', ' ', 'c', 'o', 'l', 'o', 'r', '=', '\''] + hex_text(c) + seq![
        '\'',
        '>',
    ]
}

/// `</span>`.
pub open spec fn span_close() -> Seq<char> {
    seq!['<', '/', 's', 'p', 'a', 'n', '>']
}

/// The Pango text of one run.
pub open spec fn render_run(r: RunView) -> Seq<char> {
    match r.1 {
        Some(c) => span_open(c) + escape(r.0) + span_close(),
        None => escape(r.0),
    }
}

/// The Pango text of a sequence of runs.
pub open spec fn render(runs: Seq<RunView>) -> Seq<char>
    decreases runs.len(),
{
    if runs.len() == 0 {
        Seq::empty()
    } else {
        render(runs.drop_last()) + render_run(runs.last())
    }
}

/// `inner` between uncolored square brackets.
pub open spec fn bracket_runs(inner: Seq<RunView>) -> Seq<RunView> {
    seq![("["@, None::<Rgb8>)] + inner + seq![("]"@, None::<Rgb8>)]
}

/// The views of a list of markups.
pub open spec fn views(parts: Seq<Markup>) -> Seq<Seq<RunView>> {
    parts.map_values(|m: Markup| m@)
}

fn push_escaped(out: &mut String, c: char)
    ensures
        final(out)@ == old(out)@ + escape_char(c),
{
    if c == '&' {
        proof { reveal_strlit("&amp;"); }
        push_str(out, "&amp;");
    } else if c == '<' {
        proof { reveal_strlit("&lt;"); }
        push_str(out, "&lt;");
    } else if c == '>' {
        proof { reveal_strlit("&gt;"); }
        push_str(out, "&gt;");
    } else if c == '\'' {
        proof { reveal_strlit("&apos;"); }
        push_str(out, "&apos;");
    } else if c == '"' {
        proof { reveal_strlit("&quot;"); }
        push_str(out, "&quot;");
    } else {
        push_char(out, c);
    }
    assert(final(out)@ =~= old(out)@ + escape_char(c));
}

/// Appends `text` with every Pango metacharacter escaped.
pub fn escape_pango(out: &mut String, text: &str)
    ensures
        final(out)@ == old(out)@ + escape(text@),
{
    let ghost start = out@;
    for c in it: text.chars()
        invariant
            it.seq() == text@,
            out@ == start + escape(text@.take(it.index() as int)),
    {
        proof {
            let k = it.index() as int;
            assert(text@.take(k + 1).drop_last() =~= text@.take(k));
        }
        push_escaped(out, c);
        proof {
            let k = it.index() as int;
            assert(text@.take(k + 1).last() == c);
            assert(out@ =~= start + escape(text@.take(k + 1)));
        }
    }
    assert(text@.take(text@.len() as int) =~= text@);
}

impl Clone for Markup {
    fn clone(&self) -> (copy: Self)
        ensures
            copy@ == self@,
    {
        let mut runs: Vec<Run> = Vec::new();
        let n = self.runs.len();
        for i in 0..n
            invariant
                n == self.runs.len(),
                runs@.len() == i,
                forall|j: int| 0 <= j < i ==> runs@[j]@ == self.runs@[j]@,
        {
            runs.push(self.runs[i].clone());
        }
        let copy = Markup { runs };
        assert(copy@ =~= self@);
        copy
    }
}

impl Markup {
    /// No runs at all.
    pub fn empty() -> (m: Self)
        ensures
            m@ == Seq::<RunView>::empty(),
    {
        let m = Markup { runs: Vec::new() };
        assert(m@ =~= Seq::<RunView>::empty());
        m
    }

    /// One uncolored run.
    pub fn text(text: &str) -> (m: Self)
        ensures
            m@ == seq![(text@, None::<Rgb8>)],
    {
        let mut runs = Vec::new();
        runs.push(Run { text: text.to_owned(), fg: None });
        let m = Markup { runs };
        assert(m@ =~= seq![(text@, None::<Rgb8>)]);
        m
    }

    /// One uncolored run that takes ownership of its text.
    pub fn owned(text: String) -> (m: Self)
        ensures
            m@ == seq![(text@, None::<Rgb8>)],
    {
        let mut runs = Vec::new();
        runs.push(Run { text, fg: None });
        let m = Markup { runs };
        assert(m@ =~= seq![(text@, None::<Rgb8>)]);
        m
    }

    /// Colors every run that has no color yet.
    pub fn fg(self, color: Rgb8) -> (m: Self)
        ensures
            m@ == paint(self@, color),
    {
        let mut runs = self.runs;
        let ghost before = runs@;
        let n = runs.len();
        let mut i: usize = 0;
        while i < n
            invariant
                n == runs@.len(),
                n == before.len(),
                i <= n,
                forall|j: int| 0 <= j < i ==> runs@[j]@ == (if before[j]@.1 is None {
                    (before[j]@.0, Some(color))
                } else {
                    before[j]@
                }),
                forall|j: int| i <= j < n ==> runs@[j] == before[j],
            decreases n - i,
        {
            if runs[i].fg.is_none() {
                let mut run = runs.remove(i);
                run.fg = Some(color);
                runs.insert(i, run);
            }
            i = i + 1;
        }
        let m = Markup { runs };
        assert(m@ =~= paint(self@, color));
        m
    }

    /// The runs of `self` followed by the runs of `other`.
    pub fn append(self, other: Self) -> (m: Self)
        ensures
            m@ == self@ + other@,
    {
        let mut runs = self.runs;
        let mut rest = other.runs;
        runs.append(&mut rest);
        let m = Markup { runs };
        assert(m@ =~= self@ + other@);
        m
    }

    /// `left`, then `inner`, then `right`, with the delimiters uncolored.
    pub fn delimited(left: &str, inner: Self, right: &str) -> (m: Self)
        ensures
            m@ == seq![(left@, None::<Rgb8>)] + inner@ + seq![(right@, None::<Rgb8>)],
    {
        Markup::text(left).append(inner).append(Markup::text(right))
    }

    /// `inner` between square brackets.
    pub fn bracketed(inner: Self) -> (m: Self)
        ensures
            m@ == bracket_runs(inner@),
    {
        Markup::delimited("[", inner, "]")
    }

    /// The parts in order, with an uncolored `separator` run between
    /// neighbours; no parts give no runs.
    pub fn join(separator: &str, parts: Vec<Markup>) -> (m: Self)
        ensures
            m@ == join_runs(seq![(separator@, None::<Rgb8>)], views(parts@)),
    {
        let ghost sep = seq![(separator@, None::<Rgb8>)];
        let ghost all = views(parts@);
        let mut parts = parts;
        let n = parts.len();
        if n == 0 {
            return Markup::empty();
        }
        let mut joined = parts.remove(0);
        proof {
            assert(all.take(1) =~= seq![all[0]]);
            reveal_with_fuel(join_runs, 2);
        }
        let mut taken: usize = 1;
        while parts.len() > 0
            invariant
                1 <= taken <= n,
                n == all.len(),
                sep == seq![(separator@, None::<Rgb8>)],
                parts@.len() == n - taken,
                forall|j: int| 0 <= j < parts@.len() ==> #[trigger] parts@[j]@ == all[taken + j],
                joined@ == join_runs(sep, all.take(taken as int)),
            decreases parts@.len(),
        {
            let part = parts.remove(0);
            let ghost t = taken as int;
            proof {
                assert(part@ == all[t]);
                assert(all.take(t + 1).drop_last() =~= all.take(t));
                assert(all.take(t + 1).last() == all[t]);
            }
            let ghost before = joined@;
            let s = Markup::text(separator);
            assert(s@ == sep);
            joined = joined.append(s);
            assert(joined@ == before + sep);
            joined = joined.append(part);
            taken = taken + 1;
            proof {
                assert(joined@ =~= join_runs(sep, all.take(t)) + sep + all[t]);
            }
        }
        assert(all.take(n as int) =~= all);
        joined
    }

    /// Whether two markups hold the same runs.
    pub fn same(&self, other: &Self) -> (eq: bool)
        ensures
            eq == (self@ == other@),
    {
        let n = self.runs.len();
        if n != other.runs.len() {
            assert(self@.len() != other@.len());
            return false;
        }
        for i in 0..n
            invariant
                n == self.runs.len(),
                n == other.runs.len(),
                forall|j: int| 0 <= j < i ==> self@[j] == other@[j],
        {
            let a = &self.runs[i];
            let b = &other.runs[i];
            let same_color = match (a.fg, b.fg) {
                (None, None) => true,
                (Some(x), Some(y)) => x.r == y.r && x.g == y.g && x.b == y.b,
                _ => false,
            };
            if !same_color || !(a.text == b.text) {
                assert(self@[i as int] != other@[i as int]);
                return false;
            }
        }
        assert(self@ =~= other@);
        true
    }

    /// The Pango text: every run escaped, colored runs inside a span.
    pub fn to_string(&self) -> (s: String)
        ensures
            s@ == render(self@),
    {
        let mut out = String::new();
        let n = self.runs.len();
        for i in 0..n
            invariant
                n == self.runs.len(),
                out@ == render(self@.take(i as int)),
        {
            proof {
                assert(self@.take(i + 1).drop_last() =~= self@.take(i as int));
            }
            let run = &self.runs[i];
            match run.fg {
                Some(color) => {
                    proof { reveal_strlit("<span color='"); reveal_strlit("'>"); }
                    push_str(&mut out, "<span color='");
                    let hex = color.to_hex();
                    push_str(&mut out, hex.as_str());
                    push_str(&mut out, "'>");
                    escape_pango(&mut out, run.text.as_str());
                    proof { reveal_strlit("</span>"); }
                    push_str(&mut out, "</span>");
                },
                None => {
                    escape_pango(&mut out, run.text.as_str());
                },
            }
            proof {
                assert(self@.take(i + 1).last() == self@[i as int]);
                assert(out@ =~= render(self@.take(i + 1)));
            }
        }
        assert(self@.take(n as int) =~= self@);
        out
    }
}

/// Rendering is a homomorphism: the Pango text of two markups in sequence
/// is the text of the first followed by the text of the second, so each run
/// is escaped exactly once wherever it ends up.
pub proof fn lemma_render_concat(a: Seq<RunView>, b: Seq<RunView>)
    ensures
        render(a + b) == render(a) + render(b),
    decreases b.len(),
{
    if b.len() == 0 {
        assert(a + b =~= a);
        assert(render(b) =~= Seq::<char>::empty());
        assert(render(a) + render(b) =~= render(a));
    } else {
        lemma_render_concat(a, b.drop_last());
        assert((a + b).drop_last() =~= a + b.drop_last());
        assert((a + b).last() == b.last());
        assert(render(a + b) =~= render(a) + render(b));
    }
}

/// Coloring is idempotent: a second `fg` finds no uncolored run left.
pub proof fn lemma_paint_idempotent(runs: Seq<RunView>, c: Rgb8, d: Rgb8)
    ensures
        paint(paint(runs, c), d) == paint(runs, c),
{
    assert(paint(paint(runs, c), d) =~= paint(runs, c));
}

/// Coloring distributes over concatenation, and an inner color survives an
/// outer one.
pub proof fn lemma_paint_concat(a: Seq<RunView>, b: Seq<RunView>, c: Rgb8)
    ensures
        paint(a + b, c) == paint(a, c) + paint(b, c),
        forall|i: int| 0 <= i < a.len() && a[i].1 is Some ==> #[trigger] paint(a, c)[i] == a[i],
{
    assert(paint(a + b, c) =~= paint(a, c) + paint(b, c));
}

/// Escaped text never holds a raw Pango metacharacter other than the `&`
/// that begins an entity.
pub proof fn lemma_escape_is_inert(t: Seq<char>)
    ensures
        forall|i: int|
            0 <= i < escape(t).len() ==> {
                let c = #[trigger] escape(t)[i];
                c != '<' && c != '>' && c != '\'' && c != '"'
            },
    decreases t.len(),
{
    if t.len() > 0 {
        lemma_escape_is_inert(t.drop_last());
        let head = escape(t.drop_last());
        let tail = escape_char(t.last());
        assert(escape(t) == head + tail);
        assert forall|i: int| 0 <= i < escape(t).len() implies {
            let c = #[trigger] escape(t)[i];
            c != '<' && c != '>' && c != '\'' && c != '"'
        } by {
            if i < head.len() {
                assert(escape(t)[i] == head[i]);
            } else {
                assert(escape(t)[i] == tail[i - head.len()]);
            }
        }
    }
}

/// Escaping commutes with concatenation of plain text.
pub proof fn lemma_escape_concat(a: Seq<char>, b: Seq<char>)
    ensures
        escape(a + b) == escape(a) + escape(b),
    decreases b.len(),
{
    if b.len() == 0 {
        assert(a + b =~= a);
        assert(escape(a) + escape(b) =~= escape(a));
    } else {
        lemma_escape_concat(a, b.drop_last());
        assert((a + b).drop_last() =~= a + b.drop_last());
        assert(escape(a + b) =~= escape(a) + escape(b));
    }
}

} // verus!
