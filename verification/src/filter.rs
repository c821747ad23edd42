//! Token filters: which terminals a token may see.

use crate::config::{rule_views, RuleView, TokenConfig};
use crate::text::{debug_string, debug_text, opt_text};
use vstd::prelude::*;
use vstd::string::*;

verus! {

/// `regex::Regex`.
#[verifier::external_type_specification]
#[verifier::external_body]
pub struct ExRegex(regex::Regex);

/// The pattern a regex was compiled from.
pub uninterp spec fn regex_pattern(re: regex::Regex) -> Seq<char>;

/// What is wrong with a pattern, if it does not compile.
pub uninterp spec fn regex_fault(pattern: Seq<char>) -> Option<Seq<char>>;

/// Whether the regex that a pattern compiles to finds a match in a text.
pub uninterp spec fn regex_finds(pattern: Seq<char>, text: Seq<char>) -> bool;

/// Wraps `regex::Regex::new`: whether a pattern compiles, and the description
/// of what is wrong with it, depend on the pattern alone.
#[verifier::external_body]
fn compile(pattern: &str) -> (r: Result<regex::Regex, String>)
    ensures
        match regex_fault(pattern@) {
            None => r matches Ok(re) && regex_pattern(re) == pattern@,
            Some(message) => r matches Err(m) && m@ == message,
        },
{
    regex::Regex::new(pattern).map_err(|e| e.to_string())
}

/// Wraps `regex::Regex::is_match`, whose result depends on the pattern and the
/// text alone.
#[verifier::external_body]
fn is_match(re: &regex::Regex, text: &str) -> (r: bool)
    ensures
        r == regex_finds(regex_pattern(*re), text@),
{
    re.is_match(text)
}

/// A pattern anchored at both ends.
pub open spec fn anchored_text(pattern: Seq<char>) -> Seq<char> {
    "^(?:"@ + pattern + ")$"@
}

/// Whether a pattern matches a whole text.
pub open spec fn matches_whole(pattern: Seq<char>, text: Seq<char>) -> bool {
    regex_finds(anchored_text(pattern), text)
}

/// What is wrong with a filter regex, if anything is: it must be a regex by
/// itself, and also with its anchors.
pub open spec fn pattern_fault(pattern: Seq<char>) -> Option<Seq<char>> {
    match regex_fault(pattern) {
        Some(e) => Some("invalid filter regex "@ + debug_text(pattern) + ": "@ + e),
        None => match regex_fault(anchored_text(pattern)) {
            Some(e) => Some("invalid filter regex "@ + debug_text(pattern) + ": "@ + e),
            None => None,
        },
    }
}

fn invalid(pattern: &str, e: &str) -> (r: String)
    ensures
        r@ == "invalid filter regex "@ + debug_text(pattern@) + ": "@ + e@,
{
    let mut message = "invalid filter regex ".to_owned();
    message.append(debug_string(pattern).as_str());
    message.append(": ");
    message.append(e);
    message
}

/// A filter regex, anchored at both ends. The pattern must also compile by
/// itself, so that unbalanced parentheses cannot take it out of its anchors.
fn anchored(pattern: &str) -> (r: Result<regex::Regex, String>)
    ensures
        match pattern_fault(pattern@) {
            None => r matches Ok(re) && regex_pattern(re) == anchored_text(pattern@),
            Some(message) => r matches Err(m) && m@ == message,
        },
{
    match compile(pattern) {
        Ok(_) => {},
        Err(e) => {
            return Err(invalid(pattern, e.as_str()));
        },
    }
    let mut text = "^(?:".to_owned();
    text.append(pattern);
    text.append(")$");
    match compile(text.as_str()) {
        Ok(re) => Ok(re),
        Err(e) => Err(invalid(pattern, e.as_str())),
    }
}

/// A filter rule with its regexes compiled.
pub struct CompiledRule {
    path: Option<regex::Regex>,
    windowtitle: Option<regex::Regex>,
}

/// The pattern of an optional regex.
pub open spec fn opt_pattern(re: Option<regex::Regex>) -> Option<Seq<char>> {
    match re {
        Some(re) => Some(regex_pattern(re)),
        None => None,
    }
}

/// An optional pattern, anchored.
pub open spec fn opt_anchored(pattern: Option<Seq<char>>) -> Option<Seq<char>> {
    match pattern {
        Some(p) => Some(anchored_text(p)),
        None => None,
    }
}

/// A compiled rule is known by the patterns of its regexes.
impl View for CompiledRule {
    type V = RuleView;

    closed spec fn view(&self) -> RuleView {
        RuleView { path: opt_pattern(self.path), windowtitle: opt_pattern(self.windowtitle) }
    }
}

pub open spec fn compiled_views(rules: Seq<CompiledRule>) -> Seq<RuleView> {
    rules.map_values(|r: CompiledRule| r@)
}

/// A filter whose patterns are anchored, as it is compiled.
pub open spec fn anchored_filter(filter: Seq<RuleView>) -> Seq<RuleView> {
    filter.map_values(
        |r: RuleView|
            RuleView { path: opt_anchored(r.path), windowtitle: opt_anchored(r.windowtitle) },
    )
}

/// What is wrong with an optional regex, if anything is.
pub open spec fn opt_fault(pattern: Option<Seq<char>>) -> Option<Seq<char>> {
    match pattern {
        Some(p) => pattern_fault(p),
        None => None,
    }
}

/// What is wrong with a rule of a token, if anything is.
pub open spec fn rule_fault(name: Seq<char>, rule: RuleView) -> Option<Seq<char>> {
    if rule.path is None && rule.windowtitle is None {
        Some(
            "token "@ + debug_text(name)
                + " has a filter rule with neither path nor windowtitle"@,
        )
    } else {
        match opt_fault(rule.path) {
            Some(message) => Some(message),
            None => opt_fault(rule.windowtitle),
        }
    }
}

/// What is wrong with the first faulty rule of a filter, from index `i` on.
pub open spec fn filter_fault(name: Seq<char>, filter: Seq<RuleView>, i: int) -> Option<Seq<char>>
    decreases filter.len() - i,
{
    if i >= filter.len() {
        None
    } else {
        match rule_fault(name, filter[i]) {
            Some(message) => Some(message),
            None => filter_fault(name, filter, i + 1),
        }
    }
}

fn compile_opt(pattern: &Option<String>) -> (r: Result<Option<regex::Regex>, String>)
    ensures
        match opt_fault(opt_text(*pattern)) {
            None => r matches Ok(re) && opt_pattern(re) == opt_anchored(opt_text(*pattern)),
            Some(message) => r matches Err(m) && m@ == message,
        },
{
    match pattern {
        Some(p) => match anchored(p.as_str()) {
            Ok(re) => Ok(Some(re)),
            Err(e) => Err(e),
        },
        None => Ok(None),
    }
}

/// A token's filter with its regexes compiled (empty = unrestricted), or what
/// is wrong with it.
pub fn compile_filter(token: &TokenConfig) -> (r: Result<Vec<CompiledRule>, String>)
    ensures
        match filter_fault(token@.name, token@.filter, 0) {
            None => r matches Ok(rules) && compiled_views(rules@) == anchored_filter(token@.filter),
            Some(message) => r matches Err(m) && m@ == message,
        },
{
    let ghost filter = token@.filter;
    let mut rules: Vec<CompiledRule> = Vec::new();
    let mut i: usize = 0;
    while i < token.filter.len()
        invariant
            i <= token.filter@.len() == filter.len(),
            filter == rule_views(token.filter@),
            filter == token@.filter,
            rules@.len() == i,
            forall|k: int|
                0 <= k < i ==> #[trigger] rules@[k]@ == (RuleView {
                    path: opt_anchored(filter[k].path),
                    windowtitle: opt_anchored(filter[k].windowtitle),
                }),
            filter_fault(token@.name, filter, i as int) == filter_fault(token@.name, filter, 0),
        decreases token.filter@.len() - i,
    {
        let rule = &token.filter[i];
        assert(filter[i as int] == rule@);
        if rule.path.is_none() && rule.windowtitle.is_none() {
            let mut message = "token ".to_owned();
            message.append(debug_string(token.name.as_str()).as_str());
            message.append(" has a filter rule with neither path nor windowtitle");
            return Err(message);
        }
        let path = match compile_opt(&rule.path) {
            Ok(re) => re,
            Err(e) => {
                return Err(e);
            },
        };
        let windowtitle = match compile_opt(&rule.windowtitle) {
            Ok(re) => re,
            Err(e) => {
                return Err(e);
            },
        };
        rules.push(CompiledRule { path, windowtitle });
        i += 1;
    }
    assert(compiled_views(rules@) =~= anchored_filter(filter));
    Ok(rules)
}

/// Whether a field of a terminal satisfies a compiled regex: it does where
/// there is none; an unknown field fails closed.
pub open spec fn field_admits(pattern: Option<Seq<char>>, value: Option<Seq<char>>) -> bool {
    match pattern {
        Some(p) => value matches Some(v) && regex_finds(p, v),
        None => true,
    }
}

/// Whether a compiled rule admits a terminal: every present field must match.
pub open spec fn rule_admits(
    rule: RuleView,
    cwd: Option<Seq<char>>,
    title: Option<Seq<char>>,
) -> bool {
    field_admits(rule.path, cwd) && field_admits(rule.windowtitle, title)
}

/// Whether a compiled filter admits a terminal: any rule does, or there is
/// none.
pub open spec fn admits(
    rules: Seq<RuleView>,
    cwd: Option<Seq<char>>,
    title: Option<Seq<char>>,
) -> bool {
    rules.len() == 0 || exists|i: int|
        0 <= i < rules.len() && rule_admits(#[trigger] rules[i], cwd, title)
}

fn field_matches(re: &Option<regex::Regex>, value: &Option<String>) -> (r: bool)
    ensures
        r == field_admits(opt_pattern(*re), opt_text(*value)),
{
    match re {
        Some(re) => match value {
            Some(v) => is_match(re, v.as_str()),
            None => false,
        },
        None => true,
    }
}

/// Whether a terminal with this cwd/title is visible through a filter.
pub fn filter_allows(rules: &Vec<CompiledRule>, cwd: &Option<String>, title: &Option<String>) -> (r:
    bool)
    ensures
        r == admits(compiled_views(rules@), opt_text(*cwd), opt_text(*title)),
{
    if rules.len() == 0 {
        return true;
    }
    let ghost views = compiled_views(rules@);
    let mut i: usize = 0;
    while i < rules.len()
        invariant
            i <= rules@.len() == views.len(),
            rules@.len() > 0,
            views == compiled_views(rules@),
            forall|k: int|
                0 <= k < i ==> !rule_admits(#[trigger] views[k], opt_text(*cwd), opt_text(*title)),
        decreases rules@.len() - i,
    {
        let rule = &rules[i];
        assert(views[i as int] == rule@);
        if field_matches(&rule.path, cwd) && field_matches(&rule.windowtitle, title) {
            return true;
        }
        i += 1;
    }
    false
}

/// Whether a token's filter admits a terminal.
pub open spec fn allowed(
    filter: Seq<RuleView>,
    cwd: Option<Seq<char>>,
    title: Option<Seq<char>>,
) -> bool {
    admits(anchored_filter(filter), cwd, title)
}

/// Whether a rule's field, if it is there, matches the whole of a value.
pub open spec fn field_allows(pattern: Option<Seq<char>>, value: Option<Seq<char>>) -> bool {
    match pattern {
        Some(p) => value matches Some(v) && matches_whole(p, v),
        None => true,
    }
}

/// What a filter means: everything is visible through an empty one; otherwise a
/// terminal is when some rule matches it in all its fields, each regex the
/// whole of its value.
pub proof fn filter_means(
    filter: Seq<RuleView>,
    cwd: Option<Seq<char>>,
    title: Option<Seq<char>>,
)
    ensures
        allowed(filter, cwd, title) == (filter.len() == 0 || exists|i: int|
            0 <= i < filter.len() && field_allows((#[trigger] filter[i]).path, cwd) && field_allows(
                filter[i].windowtitle,
                title,
            )),
{
    let rules = anchored_filter(filter);
    assert forall|i: int| 0 <= i < filter.len() implies rule_admits(rules[i], cwd, title) == (
    field_allows((#[trigger] filter[i]).path, cwd) && field_allows(
        filter[i].windowtitle,
        title,
    )) by {}
    if filter.len() > 0 && allowed(filter, cwd, title) {
        let i = choose|i: int| 0 <= i < rules.len() && rule_admits(#[trigger] rules[i], cwd, title);
        assert(field_allows(filter[i].path, cwd));
    }
    if exists|i: int|
        0 <= i < filter.len() && field_allows((#[trigger] filter[i]).path, cwd) && field_allows(
            filter[i].windowtitle,
            title,
        ) {
        let i = choose|i: int|
            0 <= i < filter.len() && field_allows((#[trigger] filter[i]).path, cwd) && field_allows(
                filter[i].windowtitle,
                title,
            );
        assert(rule_admits(rules[i], cwd, title));
    }
}

/// What is not known of a terminal fails closed: a filter all of whose rules
/// ask for the title admits no terminal without one, and likewise for the
/// working directory.
pub proof fn unknown_fields_fail_closed(
    filter: Seq<RuleView>,
    cwd: Option<Seq<char>>,
    title: Option<Seq<char>>,
)
    requires
        filter.len() > 0,
    ensures
        (forall|i: int| 0 <= i < filter.len() ==> (#[trigger] filter[i]).windowtitle is Some)
            ==> !allowed(filter, cwd, None),
        (forall|i: int| 0 <= i < filter.len() ==> (#[trigger] filter[i]).path is Some) ==> !allowed(
            filter,
            None,
            title,
        ),
{
    let rules = anchored_filter(filter);
    if allowed(filter, cwd, None) {
        let i = choose|i: int| 0 <= i < rules.len() && rule_admits(#[trigger] rules[i], cwd, None);
        assert(filter[i].windowtitle is None);
    }
    if allowed(filter, None, title) {
        let i = choose|i: int| 0 <= i < rules.len() && rule_admits(
            #[trigger] rules[i],
            None,
            title,
        );
        assert(filter[i].path is None);
    }
}

/// A rule's patterns are held against the whole of a value: what is searched
/// for is the pattern between the start and the end of the text, as a group.
pub proof fn patterns_match_whole_values(path: Seq<char>, title: Seq<char>, cwd: Seq<char>, name: Seq<char>)
    ensures
        ({
            let by_path = RuleView { path: Some(path), windowtitle: None };
            let by_title = RuleView { path: None, windowtitle: Some(title) };
            let by_both = RuleView { path: Some(path), windowtitle: Some(title) };
            let in_path = regex_finds("^(?:"@ + path + ")$"@, cwd);
            let in_title = regex_finds("^(?:"@ + title + ")$"@, name);
            &&& allowed(seq![by_path], Some(cwd), Some(name)) == in_path
            &&& allowed(seq![by_title], Some(cwd), Some(name)) == in_title
            &&& allowed(seq![by_both], Some(cwd), Some(name)) == (in_path && in_title)
            &&& allowed(seq![by_path, by_title], Some(cwd), Some(name)) == (in_path || in_title)
            &&& allowed(Seq::empty(), Some(cwd), Some(name))
        }),
{
    let by_path = RuleView { path: Some(path), windowtitle: None };
    let by_title = RuleView { path: None, windowtitle: Some(title) };
    let by_both = RuleView { path: Some(path), windowtitle: Some(title) };
    filter_means(seq![by_path], Some(cwd), Some(name));
    filter_means(seq![by_title], Some(cwd), Some(name));
    filter_means(seq![by_both], Some(cwd), Some(name));
    let two = seq![by_path, by_title];
    filter_means(two, Some(cwd), Some(name));
    assert(seq![by_path][0] == by_path);
    assert(seq![by_title][0] == by_title);
    assert(seq![by_both][0] == by_both);
    assert(two[0] == by_path && two[1] == by_title);
}

proof fn faulty_rule_is_found(name: Seq<char>, filter: Seq<RuleView>, from: int)
    requires
        0 <= from <= filter.len(),
    ensures
        match filter_fault(name, filter, from) {
            None => forall|i: int|
                from <= i < filter.len() ==> rule_fault(name, #[trigger] filter[i]) is None,
            Some(m) => exists|i: int|
                from <= i < filter.len() && rule_fault(name, #[trigger] filter[i]) == Some(m) && (
                forall|k: int|
                    from <= k < i ==> rule_fault(name, #[trigger] filter[k]) is None),
        },
    decreases filter.len() - from,
{
    if from < filter.len() {
        faulty_rule_is_found(name, filter, from + 1);
        if rule_fault(name, filter[from]) is Some {
            assert(rule_fault(name, filter[from]) == filter_fault(name, filter, from));
        } else if let Some(m) = filter_fault(name, filter, from + 1) {
            let i = choose|i: int|
                from + 1 <= i < filter.len() && rule_fault(name, #[trigger] filter[i]) == Some(m)
                    && (forall|k: int|
                    from + 1 <= k < i ==> rule_fault(name, #[trigger] filter[k]) is None);
            assert(rule_fault(name, filter[i]) == Some(m));
        }
    }
}

/// A filter is accepted exactly if every rule names a pattern, and every
/// pattern is one by itself and where it has to match the whole of a value.
pub proof fn filters_are_checked(name: Seq<char>, filter: Seq<RuleView>)
    ensures
        filter_fault(name, filter, 0) is None <==> forall|i: int|
            #![trigger filter[i]]
            0 <= i < filter.len() ==> {
                let rule = filter[i];
                &&& rule.path is Some || rule.windowtitle is Some
                &&& rule.path matches Some(p) ==> regex_fault(p) is None && regex_fault(
                    "^(?:"@ + p + ")$"@,
                ) is None
                &&& rule.windowtitle matches Some(p) ==> regex_fault(p) is None && regex_fault(
                    "^(?:"@ + p + ")$"@,
                ) is None
            },
{
    faulty_rule_is_found(name, filter, 0);
    assert forall|i: int| 0 <= i < filter.len() implies (rule_fault(name, #[trigger] filter[i])
        is None) == ({
        let rule = filter[i];
        &&& rule.path is Some || rule.windowtitle is Some
        &&& rule.path matches Some(p) ==> regex_fault(p) is None && regex_fault(
            "^(?:"@ + p + ")$"@,
        ) is None
        &&& rule.windowtitle matches Some(p) ==> regex_fault(p) is None && regex_fault(
            "^(?:"@ + p + ")$"@,
        ) is None
    }) by {}
}

} // verus!
