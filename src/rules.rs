//! The rule source: one rule per line, `<category>: <keyword>, <keyword>, ...`,
//! with blank lines and `#` comments skipped and malformed lines dropped.
use vstd::prelude::*;
use vstd::string::*;
use crate::text::{
    chars_of, find_char, find_in_range, lower_of, split_on, to_lower,
    trim, trim_range,
};

verus! {

/// A category with the lowercase keywords that select it.
pub struct CourseRule {
    pub course: String,
    pub keywords: Vec<String>,
}

/// A rule as values: its category and its keywords, in order.
pub type RuleModel = (Seq<char>, Seq<Seq<char>>);

pub open spec fn string_views(v: Seq<String>) -> Seq<Seq<char>> {
    v.map_values(|k: String| k@)
}

impl View for CourseRule {
    type V = RuleModel;

    open spec fn view(&self) -> RuleModel {
        (self.course@, string_views(self.keywords@))
    }
}

pub open spec fn rule_views(v: Seq<CourseRule>) -> Seq<RuleModel> {
    v.map_values(|r: CourseRule| r@)
}

/// One keyword piece, trimmed and lowercased.
pub open spec fn keyword_of(piece: Seq<char>) -> Seq<char> {
    lower_of(trim(piece))
}

/// The keywords of the comma-separated pieces, those that come out empty left out.
pub open spec fn keywords_of(pieces: Seq<Seq<char>>) -> Seq<Seq<char>>
    decreases pieces.len(),
{
    if pieces.len() == 0 {
        Seq::empty()
    } else {
        let prev = keywords_of(pieces.drop_last());
        let k = keyword_of(pieces.last());
        if k.len() > 0 {
            prev.push(k)
        } else {
            prev
        }
    }
}

/// The rule that one line gives, if any. The line is trimmed; a blank line, a
/// comment, a line without a colon, and a line whose category or keyword part
/// is blank give none. The first colon separates the two parts.
pub open spec fn parse_line(line: Seq<char>) -> Option<RuleModel> {
    let t = trim(line);
    let c = find_char(t, ':');
    if t.len() == 0 || t[0] == '#' || c == t.len() {
        None
    } else {
        let course = trim(t.subrange(0, c));
        let kws = trim(t.subrange(c + 1, t.len() as int));
        if course.len() == 0 || kws.len() == 0 {
            None
        } else {
            Some((course, keywords_of(split_on(kws, ','))))
        }
    }
}

/// The rules of the given lines, in order.
pub open spec fn rules_of_lines(lines: Seq<Seq<char>>) -> Seq<RuleModel>
    decreases lines.len(),
{
    if lines.len() == 0 {
        Seq::empty()
    } else {
        let prev = rules_of_lines(lines.drop_last());
        match parse_line(lines.last()) {
            Some(r) => prev.push(r),
            None => prev,
        }
    }
}

/// The rules of a whole rule source.
pub open spec fn parse_rules(text: Seq<char>) -> Seq<RuleModel> {
    rules_of_lines(split_on(text, '\n'))
}

proof fn lemma_find_char_bound(s: Seq<char>, c: char)
    ensures
        0 <= find_char(s, c) <= s.len(),
    decreases s.len(),
{
    if s.len() > 0 && s[0] != c {
        lemma_find_char_bound(s.subrange(1, s.len() as int), c);
    }
}

/// A loaded rule: a non-empty category and non-empty keywords.
pub open spec fn rule_wf(r: RuleModel) -> bool {
    r.0.len() > 0 && forall|k: int| 0 <= k < r.1.len() ==> (#[trigger] r.1[k]).len() > 0
}

proof fn lemma_keywords_nonempty(pieces: Seq<Seq<char>>)
    ensures
        forall|k: int|
            0 <= k < keywords_of(pieces).len() ==> (#[trigger] keywords_of(pieces)[k]).len() > 0,
    decreases pieces.len(),
{
    if pieces.len() > 0 {
        let prev = keywords_of(pieces.drop_last());
        lemma_keywords_nonempty(pieces.drop_last());
        assert forall|k: int| 0 <= k < keywords_of(pieces).len() implies (
        #[trigger] keywords_of(pieces)[k]).len() > 0 by {
            if k < prev.len() {
                assert(keywords_of(pieces)[k] == prev[k]);
            }
        }
    }
}

/// Every rule of a source is well formed.
pub proof fn lemma_rules_wf(lines: Seq<Seq<char>>)
    ensures
        forall|i: int| 0 <= i < rules_of_lines(lines).len() ==> rule_wf(#[trigger] rules_of_lines(lines)[i]),
    decreases lines.len(),
{
    if lines.len() > 0 {
        let prev = rules_of_lines(lines.drop_last());
        lemma_rules_wf(lines.drop_last());
        let line = lines.last();
        let t = trim(line);
        let c = find_char(t, ':');
        if let Some(r) = parse_line(line) {
            lemma_find_char_bound(t, ':');
            lemma_keywords_nonempty(split_on(trim(t.subrange(c + 1, t.len() as int)), ','));
            assert(rule_wf(r));
            assert(rules_of_lines(lines) == prev.push(r));
            assert forall|i: int| 0 <= i < rules_of_lines(lines).len() implies rule_wf(
                #[trigger] rules_of_lines(lines)[i],
            ) by {
                if i < prev.len() {
                    assert(rules_of_lines(lines)[i] == prev[i]);
                }
            }
        }
    }
}

fn owned_range(text: &str, a: usize, b: usize) -> (r: String)
    requires
        a <= b <= text@.len(),
    ensures
        r@ == text@.subrange(a as int, b as int),
{
    String::from_str(text.substring_char(a, b))
}

/// The keyword of the piece `text[lo..hi]`, or `None` where it comes out empty.
fn keyword_in(text: &str, cs: &Vec<char>, lo: usize, hi: usize) -> (r: Option<String>)
    requires
        cs@ == text@,
        lo <= hi <= cs@.len(),
    ensures
        r is Some ==> r->Some_0@ == keyword_of(cs@.subrange(lo as int, hi as int)),
        r is Some <==> keyword_of(cs@.subrange(lo as int, hi as int)).len() > 0,
{
    let (a, b) = trim_range(cs, lo, hi);
    let piece = owned_range(text, a, b);
    let k = to_lower(piece.as_str());
    if k.unicode_len() == 0 {
        None
    } else {
        Some(k)
    }
}

/// The keywords of the comma-separated list `text[lo..hi]`.
fn keywords_in(text: &str, cs: &Vec<char>, lo: usize, hi: usize) -> (r: Vec<String>)
    requires
        cs@ == text@,
        lo <= hi <= cs@.len(),
    ensures
        string_views(r@) == keywords_of(split_on(cs@.subrange(lo as int, hi as int), ',')),
{
    let mut out: Vec<String> = Vec::new();
    let mut p = lo;
    let mut i = lo;
    proof {
        assert(cs@.subrange(lo as int, lo as int) =~= Seq::<char>::empty());
        assert(string_views(out@) =~= Seq::empty());
    }
    while i < hi
        invariant
            cs@ == text@,
            lo <= p <= i <= hi <= cs@.len(),
            split_on(cs@.subrange(lo as int, i as int), ',').len() >= 1,
            split_on(cs@.subrange(lo as int, i as int), ',').last() == cs@.subrange(
                p as int,
                i as int,
            ),
            string_views(out@) == keywords_of(
                split_on(cs@.subrange(lo as int, i as int), ',').drop_last(),
            ),
        decreases hi - i,
    {
        let ghost s = cs@.subrange(lo as int, i as int);
        let ghost s2 = cs@.subrange(lo as int, i + 1);
        let ghost ps = split_on(s, ',');
        assert(s2.drop_last() =~= s);
        assert(s2.last() == cs@[i as int]);
        if cs[i] == ',' {
            let k = keyword_in(text, cs, p, i);
            assert(ps.drop_last().push(ps.last()) =~= ps);
            if let Some(k) = k {
                let ghost before = out@;
                out.push(k);
                assert(string_views(out@) =~= string_views(before).push(k@));
            }
            assert(split_on(s2, ',').drop_last() =~= ps);
            p = i + 1;
            i = i + 1;
            assert(cs@.subrange(p as int, i as int) =~= Seq::<char>::empty());
        } else {
            assert(split_on(s2, ',').drop_last() =~= ps.drop_last());
            assert(cs@.subrange(p as int, i + 1) =~= cs@.subrange(p as int, i as int).push(
                cs@[i as int],
            ));
            i = i + 1;
        }
    }
    let ghost ps = split_on(cs@.subrange(lo as int, hi as int), ',');
    assert(ps.drop_last().push(ps.last()) =~= ps);
    let k = keyword_in(text, cs, p, hi);
    if let Some(k) = k {
        let ghost before = out@;
        out.push(k);
        assert(string_views(out@) =~= string_views(before).push(k@));
    }
    out
}

/// The rule of the line `text[lo..hi]`, if it gives one.
fn rule_in(text: &str, cs: &Vec<char>, lo: usize, hi: usize) -> (r: Option<CourseRule>)
    requires
        cs@ == text@,
        lo <= hi <= cs@.len(),
    ensures
        match r {
            Some(rule) => parse_line(cs@.subrange(lo as int, hi as int)) == Some(rule@),
            None => parse_line(cs@.subrange(lo as int, hi as int)) is None,
        },
{
    let ghost line = cs@.subrange(lo as int, hi as int);
    let (a, b) = trim_range(cs, lo, hi);
    let ghost t = cs@.subrange(a as int, b as int);
    if a == b || cs[a] == '#' {
        return None;
    }
    let c = find_in_range(cs, a, b, ':');
    if c == b {
        return None;
    }
    assert(cs@.subrange(a as int, c as int) =~= t.subrange(0, c - a));
    assert(cs@.subrange(c + 1, b as int) =~= t.subrange(c - a + 1, t.len() as int));
    let (ca, cb) = trim_range(cs, a, c);
    let (ka, kb) = trim_range(cs, c + 1, b);
    if ca == cb || ka == kb {
        return None;
    }
    let course = owned_range(text, ca, cb);
    let keywords = keywords_in(text, cs, ka, kb);
    Some(CourseRule { course, keywords })
}

/// Reads a rule source into its rules, in the order of their lines. Malformed
/// lines are skipped; no source is refused.
pub fn load_rules(text: &str) -> (r: Vec<CourseRule>)
    ensures
        rule_views(r@) == parse_rules(text@),
        forall|i: int| 0 <= i < r@.len() ==> rule_wf(#[trigger] r@[i]@),
{
    let cs = chars_of(text);
    let n = cs.len();
    let mut out: Vec<CourseRule> = Vec::new();
    let mut p: usize = 0;
    let mut i: usize = 0;
    proof {
        assert(cs@.subrange(0, 0) =~= Seq::<char>::empty());
        assert(rule_views(out@) =~= Seq::empty());
    }
    while i < n
        invariant
            cs@ == text@,
            n == cs@.len(),
            p <= i <= n,
            split_on(cs@.subrange(0, i as int), '\n').len() >= 1,
            split_on(cs@.subrange(0, i as int), '\n').last() == cs@.subrange(p as int, i as int),
            rule_views(out@) == rules_of_lines(split_on(cs@.subrange(0, i as int), '\n').drop_last()),
        decreases n - i,
    {
        let ghost s = cs@.subrange(0, i as int);
        let ghost s2 = cs@.subrange(0, i + 1);
        let ghost ps = split_on(s, '\n');
        assert(s2.drop_last() =~= s);
        assert(s2.last() == cs@[i as int]);
        if cs[i] == '\n' {
            let rule = rule_in(text, &cs, p, i);
            assert(ps.drop_last().push(ps.last()) =~= ps);
            if let Some(rule) = rule {
                let ghost before = out@;
                out.push(rule);
                assert(rule_views(out@) =~= rule_views(before).push(rule@));
            }
            assert(split_on(s2, '\n').drop_last() =~= ps);
            p = i + 1;
            i = i + 1;
            assert(cs@.subrange(p as int, i as int) =~= Seq::<char>::empty());
        } else {
            assert(split_on(s2, '\n').drop_last() =~= ps.drop_last());
            assert(cs@.subrange(p as int, i + 1) =~= cs@.subrange(p as int, i as int).push(
                cs@[i as int],
            ));
            i = i + 1;
        }
    }
    assert(cs@.subrange(0, n as int) =~= text@);
    let ghost ps = split_on(text@, '\n');
    assert(ps.drop_last().push(ps.last()) =~= ps);
    let rule = rule_in(text, &cs, p, n);
    if let Some(rule) = rule {
        let ghost before = out@;
        out.push(rule);
        assert(rule_views(out@) =~= rule_views(before).push(rule@));
    }
    proof {
        lemma_rules_wf(split_on(text@, '\n'));
        assert forall|i: int| 0 <= i < out@.len() implies rule_wf(#[trigger] out@[i]@) by {
            assert(rule_views(out@)[i] == out@[i]@);
            assert(rule_wf(rules_of_lines(split_on(text@, '\n'))[i]));
        }
    }
    out
}

} // verus!
