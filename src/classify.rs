//! Choosing a category for a file name: the first rule with a keyword that
//! occurs in the lowercased name.
use vstd::prelude::*;
use vstd::string::*;
use crate::rules::{rule_views, string_views, CourseRule, RuleModel};
use crate::text::{chars_of, contains, contains_chars, lower_of, to_lower};

verus! {

/// Some non-empty keyword of the list occurs in `name`.
pub open spec fn rule_hits(keywords: Seq<Seq<char>>, name: Seq<char>) -> bool {
    exists|k: int|
        0 <= k < keywords.len() && (#[trigger] keywords[k]).len() > 0 && contains(
            name,
            keywords[k],
        )
}

/// The category of the first rule that hits `name`, from rule `i` on.
pub open spec fn first_match_from(rules: Seq<RuleModel>, name: Seq<char>, i: int) -> Option<
    Seq<char>,
>
    decreases rules.len() - i,
{
    if i < 0 || i >= rules.len() {
        None
    } else if rule_hits(rules[i].1, name) {
        Some(rules[i].0)
    } else {
        first_match_from(rules, name, i + 1)
    }
}

/// The category of the first rule that hits the already lowercased `name`.
pub open spec fn first_match(rules: Seq<RuleModel>, name: Seq<char>) -> Option<Seq<char>> {
    first_match_from(rules, name, 0)
}

/// The category that `classify` gives a file name: matching ignores case.
pub open spec fn course_of(rules: Seq<RuleModel>, filename: Seq<char>) -> Option<Seq<char>> {
    first_match(rules, lower_of(filename))
}

pub open spec fn opt_view(r: Option<String>) -> Option<Seq<char>> {
    match r {
        Some(s) => Some(s@),
        None => None,
    }
}

/// Whether a keyword of `keywords` occurs in `name`.
fn keywords_hit(keywords: &Vec<String>, name: &Vec<char>) -> (r: bool)
    ensures
        r == rule_hits(string_views(keywords@), name@),
{
    let ghost kws = string_views(keywords@);
    let mut j: usize = 0;
    while j < keywords.len()
        invariant
            j <= keywords@.len(),
            kws == string_views(keywords@),
            forall|t: int| 0 <= t < j ==> !((#[trigger] kws[t]).len() > 0 && contains(name@, kws[t])),
        decreases keywords@.len() - j,
    {
        let kw = chars_of(keywords[j].as_str());
        assert(kws[j as int] == keywords@[j as int]@);
        if kw.len() > 0 && contains_chars(name, &kw) {
            return true;
        }
        j = j + 1;
    }
    false
}

/// The category of the first rule with a keyword that occurs in `name`,
/// which the caller has lowercased already.
pub fn match_course_lowered(rules: &[CourseRule], name: &str) -> (r: Option<String>)
    ensures
        opt_view(r) == first_match(rule_views(rules@), name@),
{
    let ghost rs = rule_views(rules@);
    let chars = chars_of(name);
    let mut i: usize = 0;
    while i < rules.len()
        invariant
            i <= rules@.len(),
            rs == rule_views(rules@),
            chars@ == name@,
            first_match(rs, name@) == first_match_from(rs, name@, i as int),
        decreases rules@.len() - i,
    {
        assert(rs[i as int] == rules@[i as int]@);
        if keywords_hit(&rules[i].keywords, &chars) {
            return Some(rules[i].course.clone());
        }
        i = i + 1;
    }
    None
}

/// The category of the first rule, in order, with a keyword that occurs in
/// `filename`, case ignored; `None` where no rule matches.
pub fn match_course(rules: &[CourseRule], filename: &str) -> (r: Option<String>)
    ensures
        opt_view(r) == course_of(rule_views(rules@), filename@),
{
    let name = to_lower(filename);
    match_course_lowered(rules, name.as_str())
}

/// Repeated classification agrees: the category is a function of the rules
/// and the file name alone.
pub proof fn law_classify_repeatable(
    rules: Seq<RuleModel>,
    filename: Seq<char>,
    first: Option<Seq<char>>,
    second: Option<Seq<char>>,
)
    requires
        first == course_of(rules, filename),
        second == course_of(rules, filename),
    ensures
        first == second,
{
}

proof fn lemma_first_match_from(rules: Seq<RuleModel>, name: Seq<char>, start: int, i: int)
    requires
        0 <= start <= i < rules.len(),
        rule_hits(rules[i].1, name),
        forall|j: int| start <= j < i ==> !rule_hits(#[trigger] rules[j].1, name),
    ensures
        first_match_from(rules, name, start) == Some(rules[i].0),
    decreases i - start,
{
    if start < i {
        lemma_first_match_from(rules, name, start + 1, i);
    }
}

/// The first rule that hits the name decides, whatever later rules say.
pub proof fn law_first_rule_wins(rules: Seq<RuleModel>, name: Seq<char>, i: int)
    requires
        0 <= i < rules.len(),
        rule_hits(rules[i].1, name),
        forall|j: int| 0 <= j < i ==> !rule_hits(#[trigger] rules[j].1, name),
    ensures
        first_match(rules, name) == Some(rules[i].0),
{
    lemma_first_match_from(rules, name, 0, i);
}

/// Case does not matter: two file names with the same lowercase form get
/// the same category.
pub proof fn law_classify_ignores_case(rules: Seq<RuleModel>, a: Seq<char>, b: Seq<char>)
    requires
        lower_of(a) == lower_of(b),
    ensures
        course_of(rules, a) == course_of(rules, b),
{
}

} // verus!
