//! The text layout decisions of PDF export: which lines are headings, and
//! how a body line splits into plain and bold runs.
use vstd::prelude::*;
use crate::text::{count_leading_ws, from_chars, has_at, leading_ws, matches_at, string_of, to_chars};

verus! {

/// A run of text with a single style.
#[derive(Debug, Clone)]
pub struct TextRun {
    pub text: String,
    pub bold: bool,
}

/// The runs of `s` from position `i` on, with the pending text `cur` in the
/// current style `bold`.  `**` and `__` toggle bold and end the pending run;
/// `++` and single `*`, `_` and backtick markers are dropped.
pub open spec fn runs_from(s: Seq<char>, i: int, cur: Seq<char>, bold: bool) -> Seq<(Seq<char>, bool)>
    decreases s.len() - i,
{
    if i < 0 || i >= s.len() {
        if cur.len() > 0 { seq![(cur, bold)] } else { seq![] }
    } else {
        let ch = s[i];
        let next_is = |c: char| i + 1 < s.len() && s[i + 1] == c;
        if (ch == '*' && next_is('*')) || (ch == '_' && next_is('_')) {
            (if cur.len() > 0 { seq![(cur, bold)] } else { seq![] }) + runs_from(s, i + 2, seq![], !bold)
        } else if ch == '+' && next_is('+') {
            runs_from(s, i + 2, cur, bold)
        } else if ch == '*' || ch == '_' || ch == '`' {
            runs_from(s, i + 1, cur, bold)
        } else {
            runs_from(s, i + 1, cur.push(ch), bold)
        }
    }
}

/// The runs of a body line.
pub open spec fn inline_runs(line: Seq<char>) -> Seq<(Seq<char>, bool)> {
    runs_from(line, 0, seq![], false)
}

pub open spec fn runs_view(r: Seq<TextRun>) -> Seq<(Seq<char>, bool)> {
    r.map_values(|t: TextRun| (t.text@, t.bold))
}

/// Splits a line into runs of plain and bold text (`**...**` or `__...__`);
/// italic, underline and code markers are removed.
pub fn parse_inline_runs(line: &str) -> (runs: Vec<TextRun>)
    ensures
        runs_view(runs@) == inline_runs(line@),
{
    let v = to_chars(line);
    let n = v.len();
    let mut runs: Vec<TextRun> = Vec::new();
    let mut cur: Vec<char> = Vec::new();
    let mut bold = false;
    let mut i: usize = 0;
    proof {
        assert(runs_view(runs@) + runs_from(v@, 0, seq![], false) =~= inline_runs(line@));
    }
    while i < n
        invariant
            n == v@.len(),
            v@ == line@,
            i <= n + 1,
            runs_view(runs@) + runs_from(v@, i as int, cur@, bold) == inline_runs(line@),
        decreases n + 1 - i,
    {
        let ch = v[i];
        let next = if i + 1 < n { Some(v[i + 1]) } else { None };
        let ghost r0 = runs@;
        if (ch == '*' && next == Some('*')) || (ch == '_' && next == Some('_')) {
            if cur.len() > 0 {
                let t = TextRun { text: string_of(&cur), bold };
                runs.push(t);
                proof {
                    assert(runs_view(runs@) =~= runs_view(r0).push((cur@, bold)));
                }
            }
            proof {
                let e = if cur@.len() > 0 { seq![(cur@, bold)] } else { Seq::<(Seq<char>, bool)>::empty() };
                assert(runs_view(runs@) =~= runs_view(r0) + e);
            }
            cur = Vec::new();
            bold = !bold;
            i = i + 2;
        } else if ch == '+' && next == Some('+') {
            i = i + 2;
        } else if ch == '*' || ch == '_' || ch == '`' {
            i = i + 1;
        } else {
            cur.push(ch);
            i = i + 1;
        }
    }
    let ghost r0 = runs@;
    if cur.len() > 0 {
        let t = TextRun { text: string_of(&cur), bold };
        runs.push(t);
        proof {
            assert(runs_view(runs@) =~= runs_view(r0).push((cur@, bold)));
        }
    } else {
        proof {
            assert(runs_view(runs@) =~= runs_view(r0) + Seq::<(Seq<char>, bool)>::empty());
        }
    }
    runs
}

/// How PDF export lays out a line.
#[derive(Debug, Clone)]
pub enum PdfLine {
    /// A heading of level 1 to 3 with its text.
    Heading(u8, String),
    /// A body line as runs of plain and bold text.
    Body(Vec<TextRun>),
}

/// The heading level PDF export gives a line: after leading whitespace it
/// starts with `"# "`, else `"## "`, else `"### "`; 0 for body lines.
pub open spec fn pdf_heading_level(l: Seq<char>) -> u8 {
    let w = leading_ws(l) as int;
    if matches_at(l, w, seq!['#', ' ']) {
        1
    } else if matches_at(l, w, seq!['#', '#', ' ']) {
        2
    } else if matches_at(l, w, seq!['#', '#', '#', ' ']) {
        3
    } else {
        0
    }
}

/// Classifies a line for PDF export: headings lose their `#` prefix and the
/// space after it; other lines become runs of plain and bold text.
pub fn classify_pdf_line(line: &str) -> (r: PdfLine)
    ensures
        pdf_heading_level(line@) == 0 ==> (r matches PdfLine::Body(runs) && runs_view(runs@) == inline_runs(line@)),
        pdf_heading_level(line@) > 0 ==> (r matches PdfLine::Heading(lv, text) && lv == pdf_heading_level(line@)
            && text@ == line@.skip(leading_ws(line@) + lv + 1)),
{
    let v = to_chars(line);
    let w = count_leading_ws(&v, 0);
    proof {
        assert(v@.skip(0) =~= v@);
    }
    let lv: u8 = if has_at(&v, w, &['#', ' ']) {
        1
    } else if has_at(&v, w, &['#', '#', ' ']) {
        2
    } else if has_at(&v, w, &['#', '#', '#', ' ']) {
        3
    } else {
        0
    };
    if lv == 0 {
        PdfLine::Body(parse_inline_runs(line))
    } else {
        proof {
            assert(w + lv + 1 <= v@.len());
        }
        assert(w + (lv as usize) + 1 <= v.len());
        let text = from_chars(&v, w + lv as usize + 1, v.len());
        proof {
            assert(text@ =~= line@.skip(leading_ws(line@) + lv + 1));
        }
        PdfLine::Heading(lv, text)
    }
}

// ---------------------------------------------------------------------------
// Laws
// ---------------------------------------------------------------------------

proof fn lemma_runs_from_clean(s: Seq<char>, i: int, cur: Seq<char>, bold: bool)
    requires
        forall|j: int| 0 <= j < cur.len() ==> #[trigger] cur[j] != '*' && cur[j] != '_' && cur[j] != '`',
    ensures
        forall|k: int| 0 <= k < runs_from(s, i, cur, bold).len() ==> {
            let t = #[trigger] runs_from(s, i, cur, bold)[k].0;
            &&& t.len() > 0
            &&& forall|j: int| 0 <= j < t.len() ==> t[j] != '*' && t[j] != '_' && t[j] != '`'
        },
    decreases s.len() - i,
{
    if 0 <= i < s.len() {
        let ch = s[i];
        let next_is = |c: char| i + 1 < s.len() && s[i + 1] == c;
        if (ch == '*' && next_is('*')) || (ch == '_' && next_is('_')) {
            lemma_runs_from_clean(s, i + 2, seq![], !bold);
            let e = if cur.len() > 0 { seq![(cur, bold)] } else { Seq::<(Seq<char>, bool)>::empty() };
            let rest = runs_from(s, i + 2, seq![], !bold);
            assert(runs_from(s, i, cur, bold) == e + rest);
            assert forall|k: int| 0 <= k < (e + rest).len() implies {
                let t = #[trigger] (e + rest)[k].0;
                &&& t.len() > 0
                &&& forall|j: int| 0 <= j < t.len() ==> t[j] != '*' && t[j] != '_' && t[j] != '`'
            } by {
                if k >= e.len() {
                    assert((e + rest)[k] == rest[k - e.len()]);
                } else {
                    assert((e + rest)[k] == e[k]);
                }
            }
        } else if ch == '+' && next_is('+') {
            lemma_runs_from_clean(s, i + 2, cur, bold);
            assert(runs_from(s, i, cur, bold) == runs_from(s, i + 2, cur, bold));
        } else if ch == '*' || ch == '_' || ch == '`' {
            lemma_runs_from_clean(s, i + 1, cur, bold);
            assert(runs_from(s, i, cur, bold) == runs_from(s, i + 1, cur, bold));
        } else {
            assert(runs_from(s, i, cur, bold) == runs_from(s, i + 1, cur.push(ch), bold));
            assert forall|j: int| 0 <= j < cur.push(ch).len() implies #[trigger] cur.push(ch)[j] != '*'
                && cur.push(ch)[j] != '_' && cur.push(ch)[j] != '`' by {
                if j < cur.len() {
                    assert(cur.push(ch)[j] == cur[j]);
                }
            }
            lemma_runs_from_clean(s, i + 1, cur.push(ch), bold);
        }
    } else {
        if cur.len() > 0 {
            assert(runs_from(s, i, cur, bold) == seq![(cur, bold)]);
            assert(runs_from(s, i, cur, bold)[0].0 == cur);
        }
    }
}

/// Every run of a body line is non-empty and free of `*`, `_` and backtick
/// markers.
pub proof fn law_runs_are_clean(line: Seq<char>)
    ensures
        forall|k: int| 0 <= k < inline_runs(line).len() ==> {
            let t = #[trigger] inline_runs(line)[k].0;
            &&& t.len() > 0
            &&& forall|j: int| 0 <= j < t.len() ==> t[j] != '*' && t[j] != '_' && t[j] != '`'
        },
{
    lemma_runs_from_clean(line, 0, seq![], false);
}

/// The text of `s` from position `i` on without its markup: `**`, `__`
/// and `++` pairs and single `*`, `_` and backtick markers left out.
pub open spec fn plain_from(s: Seq<char>, i: int) -> Seq<char>
    decreases s.len() - i,
{
    if i < 0 || i >= s.len() {
        seq![]
    } else {
        let ch = s[i];
        let next_is = |c: char| i + 1 < s.len() && s[i + 1] == c;
        if (ch == '*' && next_is('*')) || (ch == '_' && next_is('_')) || (ch == '+' && next_is('+')) {
            plain_from(s, i + 2)
        } else if ch == '*' || ch == '_' || ch == '`' {
            plain_from(s, i + 1)
        } else {
            seq![ch] + plain_from(s, i + 1)
        }
    }
}

/// The texts of the runs, one after another.
pub open spec fn joined_runs(r: Seq<(Seq<char>, bool)>) -> Seq<char>
    decreases r.len(),
{
    if r.len() == 0 {
        seq![]
    } else {
        r[0].0 + joined_runs(r.drop_first())
    }
}

proof fn lemma_joined_cons(a: (Seq<char>, bool), t: Seq<(Seq<char>, bool)>)
    ensures
        joined_runs(seq![a] + t) == a.0 + joined_runs(t),
{
    assert((seq![a] + t)[0] == a);
    assert((seq![a] + t).drop_first() =~= t);
}

proof fn lemma_runs_from_text(s: Seq<char>, i: int, cur: Seq<char>, bold: bool)
    requires
        0 <= i,
    ensures
        joined_runs(runs_from(s, i, cur, bold)) == cur + plain_from(s, i),
    decreases s.len() - i,
{
    if i >= s.len() {
        if cur.len() > 0 {
            lemma_joined_cons((cur, bold), Seq::<(Seq<char>, bool)>::empty());
            assert(seq![(cur, bold)] + Seq::<(Seq<char>, bool)>::empty() =~= seq![(cur, bold)]);
        }
        assert(cur + Seq::<char>::empty() =~= cur);
    } else {
        let ch = s[i];
        let pair = |c: char| ch == c && i + 1 < s.len() && s[i + 1] == c;
        if pair('*') || pair('_') {
            lemma_runs_from_text(s, i + 2, seq![], !bold);
            let rest = runs_from(s, i + 2, seq![], !bold);
            if cur.len() > 0 {
                lemma_joined_cons((cur, bold), rest);
            } else {
                assert(Seq::<(Seq<char>, bool)>::empty() + rest =~= rest);
                assert(cur =~= Seq::<char>::empty());
            }
            assert(Seq::<char>::empty() + plain_from(s, i + 2) =~= plain_from(s, i + 2));
        } else if pair('+') {
            lemma_runs_from_text(s, i + 2, cur, bold);
        } else if ch == '*' || ch == '_' || ch == '`' {
            lemma_runs_from_text(s, i + 1, cur, bold);
        } else {
            lemma_runs_from_text(s, i + 1, cur.push(ch), bold);
            assert(cur.push(ch) + plain_from(s, i + 1) =~= cur + (seq![ch] + plain_from(s, i + 1)));
        }
    }
}

/// The runs of a body line, one after another, give its text without the
/// markup.
pub proof fn law_runs_give_the_plain_text(line: Seq<char>)
    ensures
        joined_runs(inline_runs(line)) == plain_from(line, 0),
{
    lemma_runs_from_text(line, 0, seq![], false);
    assert(Seq::<char>::empty() + plain_from(line, 0) =~= plain_from(line, 0));
}

/// The characters of `s` from position `i` on without the markup, each
/// with the bold state in force there: `bold` at `i`, flipped by each `**`
/// or `__` pair.
pub open spec fn styled_from(s: Seq<char>, i: int, bold: bool) -> Seq<(char, bool)>
    decreases s.len() - i,
{
    if i < 0 || i >= s.len() {
        seq![]
    } else {
        let ch = s[i];
        let next_is = |c: char| i + 1 < s.len() && s[i + 1] == c;
        if (ch == '*' && next_is('*')) || (ch == '_' && next_is('_')) {
            styled_from(s, i + 2, !bold)
        } else if ch == '+' && next_is('+') {
            styled_from(s, i + 2, bold)
        } else if ch == '*' || ch == '_' || ch == '`' {
            styled_from(s, i + 1, bold)
        } else {
            seq![(ch, bold)] + styled_from(s, i + 1, bold)
        }
    }
}

/// The characters of a text, each with the same bold state.
pub open spec fn tagged(t: Seq<char>, bold: bool) -> Seq<(char, bool)> {
    t.map_values(|c: char| (c, bold))
}

/// The characters of the runs, one after another, each with its run's
/// bold state.
pub open spec fn styled_runs(r: Seq<(Seq<char>, bool)>) -> Seq<(char, bool)>
    decreases r.len(),
{
    if r.len() == 0 {
        seq![]
    } else {
        tagged(r[0].0, r[0].1) + styled_runs(r.drop_first())
    }
}

proof fn lemma_runs_from_styles(s: Seq<char>, i: int, cur: Seq<char>, bold: bool)
    requires
        0 <= i,
    ensures
        styled_runs(runs_from(s, i, cur, bold)) == tagged(cur, bold) + styled_from(s, i, bold),
    decreases s.len() - i,
{
    if i >= s.len() {
        if cur.len() > 0 {
            let r = seq![(cur, bold)];
            assert(r[0] == (cur, bold));
            assert(r.drop_first() =~= Seq::<(Seq<char>, bool)>::empty());
            assert(styled_runs(r.drop_first()) == Seq::<(char, bool)>::empty());
            assert(styled_runs(r) =~= tagged(cur, bold));
        } else {
            assert(tagged(cur, bold) =~= Seq::<(char, bool)>::empty());
        }
        assert(styled_from(s, i, bold) == Seq::<(char, bool)>::empty());
        assert(tagged(cur, bold) + Seq::<(char, bool)>::empty() =~= tagged(cur, bold));
    } else {
        let ch = s[i];
        let pair = |c: char| ch == c && i + 1 < s.len() && s[i + 1] == c;
        if pair('*') || pair('_') {
            lemma_runs_from_styles(s, i + 2, seq![], !bold);
            let rest = runs_from(s, i + 2, seq![], !bold);
            assert(tagged(Seq::<char>::empty(), !bold) =~= Seq::<(char, bool)>::empty());
            if cur.len() > 0 {
                let h = seq![(cur, bold)] + rest;
                assert(h[0] == (cur, bold));
                assert(h.drop_first() =~= rest);
            } else {
                assert(Seq::<(Seq<char>, bool)>::empty() + rest =~= rest);
                assert(tagged(cur, bold) =~= Seq::<(char, bool)>::empty());
            }
            assert(Seq::<(char, bool)>::empty() + styled_from(s, i + 2, !bold) =~= styled_from(s, i + 2, !bold));
            assert(tagged(cur, bold) + styled_from(s, i + 2, !bold) =~= tagged(cur, bold) + styled_from(s, i, bold));
        } else if pair('+') {
            lemma_runs_from_styles(s, i + 2, cur, bold);
        } else if ch == '*' || ch == '_' || ch == '`' {
            lemma_runs_from_styles(s, i + 1, cur, bold);
        } else {
            lemma_runs_from_styles(s, i + 1, cur.push(ch), bold);
            assert(tagged(cur.push(ch), bold) =~= tagged(cur, bold) + seq![(ch, bold)]);
            assert(tagged(cur.push(ch), bold) + styled_from(s, i + 1, bold) =~= tagged(cur, bold) + (seq![(ch, bold)]
                + styled_from(s, i + 1, bold)));
        }
    }
}

/// Each character of a body line's runs is bold exactly when the `**` and
/// `__` markers before it switched bold on an odd number of times.
pub proof fn law_runs_follow_the_bold_markers(line: Seq<char>)
    ensures
        styled_runs(inline_runs(line)) == styled_from(line, 0, false),
{
    lemma_runs_from_styles(line, 0, seq![], false);
    assert(tagged(Seq::<char>::empty(), false) =~= Seq::<(char, bool)>::empty());
    assert(Seq::<(char, bool)>::empty() + styled_from(line, 0, false) =~= styled_from(line, 0, false));
}

} // verus!
