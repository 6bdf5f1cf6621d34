//! Filtering of the variable list.
use vstd::prelude::*;
use vstd::string::*;

use fuzzy_matcher::skim::SkimMatcherV2;
use fuzzy_matcher::FuzzyMatcher;
use regex::RegexBuilder;

use crate::wave::VariableRef;

verus! {

/// How the filter text is matched against variable names.
#[derive(Debug, Clone, Copy, PartialEq, Eq, Structural)]
pub enum VariableNameFilterType {
    Fuzzy,
    Regex,
    Start,
    Contain,
}

pub open spec fn filter_type_name(t: VariableNameFilterType) -> Seq<char> {
    match t {
        VariableNameFilterType::Fuzzy => "Fuzzy"@,
        VariableNameFilterType::Regex => "Regular expression"@,
        VariableNameFilterType::Start => "Variable starts with"@,
        VariableNameFilterType::Contain => "Variable contains"@,
    }
}

impl VariableNameFilterType {
    /// The name shown in the filter type menu.
    pub fn to_string(&self) -> (r: String)
        ensures
            r@ == filter_type_name(*self),
    {
        match self {
            VariableNameFilterType::Fuzzy => String::from_str("Fuzzy"),
            VariableNameFilterType::Regex => String::from_str("Regular expression"),
            VariableNameFilterType::Start => String::from_str("Variable starts with"),
            VariableNameFilterType::Contain => String::from_str("Variable contains"),
        }
    }
}

/// The filter of the variable list.
pub struct VariableFilter {
    pub name_filter_type: VariableNameFilterType,
    pub name_filter_str: String,
    pub name_filter_case_insensitive: bool,
}

// ── Calls into fuzzy-matcher, regex and numeric-sort ─────────────────────────

/// The score that `SkimMatcherV2::fuzzy_match` gives `choice` for `pattern`,
/// ignoring case or respecting it; `None` when the pattern does not match.
pub uninterp spec fn skim_fuzzy_score(choice: Seq<char>, pattern: Seq<char>, ignore_case: bool) -> Option<
    i64,
>;

/// Whether `RegexBuilder::new(pattern).case_insensitive(..).build()` succeeds.
pub uninterp spec fn regex_compiles(pattern: Seq<char>, case_insensitive: bool) -> bool;

/// Whether the regex built from `pattern` finds a match in `haystack`.
pub uninterp spec fn regex_finds(pattern: Seq<char>, case_insensitive: bool, haystack: Seq<char>) -> bool;

/// The sign of `numeric_sort::cmp(a, b)`: -1, 0 or 1.
pub uninterp spec fn numeric_order(a: Seq<char>, b: Seq<char>) -> i8;

/// Calls `SkimMatcherV2::default()`, set to ignore or respect case, and its
/// `fuzzy_match(choice, pattern)`. The contract names the score; the result
/// depends on the arguments alone.
#[verifier::external_body]
fn fuzzy_score(choice: &str, pattern: &str, ignore_case: bool) -> (r: Option<i64>)
    ensures
        r == skim_fuzzy_score(choice@, pattern@, ignore_case),
{
    let matcher = if ignore_case {
        SkimMatcherV2::default().ignore_case()
    } else {
        SkimMatcherV2::default().respect_case()
    };
    matcher.fuzzy_match(choice, pattern)
}

/// The characters that `regex::escape` precedes with a backslash.
pub open spec fn is_regex_meta(c: char) -> bool {
    c == '\\' || c == '.' || c == '+' || c == '*' || c == '?' || c == '(' || c == ')' || c == '|'
        || c == '[' || c == ']' || c == '{' || c == '}' || c == '^' || c == '$' || c == '#' || c
        == '&' || c == '-' || c == '~'
}

/// `text` with a backslash before each regex meta character.
pub open spec fn regex_escape_spec(text: Seq<char>) -> Seq<char>
    decreases text.len(),
{
    if text.len() == 0 {
        Seq::empty()
    } else {
        regex_escape_spec(text.drop_last()) + if is_regex_meta(text.last()) {
            seq!['\\', text.last()]
        } else {
            seq![text.last()]
        }
    }
}

/// Calls `regex::escape`, which (through `regex_syntax::escape_into`) copies
/// `text` and puts a backslash before each character that
/// `regex_syntax::is_meta_character` lists. The contract claims exactly that.
#[verifier::external_body]
fn escape_regex(text: &str) -> (r: String)
    ensures
        r@ == regex_escape_spec(text@),
{
    regex::escape(text)
}

/// Builds a regex from `pattern` with `RegexBuilder` and, when that
/// succeeds, calls its `is_match` on `haystack`. The contract names both
/// outcomes; they depend on the arguments alone.
#[verifier::external_body]
fn regex_search(pattern: &str, case_insensitive: bool, haystack: &str) -> (r: Option<bool>)
    ensures
        r == (if regex_compiles(pattern@, case_insensitive) {
            Some(regex_finds(pattern@, case_insensitive, haystack@))
        } else {
            None
        }),
{
    match RegexBuilder::new(pattern).case_insensitive(case_insensitive).build() {
        Ok(re) => Some(re.is_match(haystack)),
        Err(_) => None,
    }
}

/// Calls `numeric_sort::cmp(a, b)` and gives -1, 0 or 1 for less, equal and
/// greater. The contract names the result and states that swapping the
/// arguments flips its sign: `cmp` compares the segment sequences of the two
/// strings lexicographically with `Ord` impls that are antisymmetric.
#[verifier::external_body]
fn numeric_order_of(a: &str, b: &str) -> (r: i8)
    ensures
        r == numeric_order(a@, b@),
        r + numeric_order(b@, a@) == 0,
        -1 <= r <= 1,
{
    match numeric_sort::cmp(a, b) {
        std::cmp::Ordering::Less => -1,
        std::cmp::Ordering::Equal => 0,
        std::cmp::Ordering::Greater => 1,
    }
}

// ── Matching ─────────────────────────────────────────────────────────────────

/// Whether a variable called `name` passes a filter.
pub open spec fn name_passes(
    filter_type: VariableNameFilterType,
    pattern: Seq<char>,
    case_insensitive: bool,
    name: Seq<char>,
) -> bool {
    if pattern.len() == 0 {
        true
    } else {
        match filter_type {
            VariableNameFilterType::Fuzzy => skim_fuzzy_score(name, pattern, case_insensitive) is Some,
            VariableNameFilterType::Regex => regex_compiles(pattern, case_insensitive) && regex_finds(
                pattern,
                case_insensitive,
                name,
            ),
            VariableNameFilterType::Start => {
                let p = seq!['^'] + regex_escape_spec(pattern);
                regex_compiles(p, case_insensitive) && regex_finds(p, case_insensitive, name)
            },
            VariableNameFilterType::Contain => {
                let p = regex_escape_spec(pattern);
                regex_compiles(p, case_insensitive) && regex_finds(p, case_insensitive, name)
            },
        }
    }
}

impl VariableFilter {
    pub open spec fn passes(&self, name: Seq<char>) -> bool {
        name_passes(self.name_filter_type, self.name_filter_str@, self.name_filter_case_insensitive, name)
    }

    /// The filter shown at start: an empty text, matched as a substring
    /// ignoring case.
    pub fn new() -> (r: VariableFilter)
        ensures
            r.name_filter_type == VariableNameFilterType::Contain,
            r.name_filter_str@ == Seq::<char>::empty(),
            r.name_filter_case_insensitive,
    {
        VariableFilter {
            name_filter_type: VariableNameFilterType::Contain,
            name_filter_str: String::new(),
            name_filter_case_insensitive: true,
        }
    }

    /// Whether a variable called `name` passes the filter.
    pub fn name_filter_fn(&self, name: &str) -> (r: bool)
        ensures
            r == self.passes(name@),
    {
        if self.name_filter_str.as_str().is_empty() {
            return true;
        }
        let ci = self.name_filter_case_insensitive;
        match self.name_filter_type {
            VariableNameFilterType::Fuzzy => fuzzy_score(name, self.name_filter_str.as_str(), ci).is_some(),
            VariableNameFilterType::Regex => match regex_search(self.name_filter_str.as_str(), ci, name) {
                Some(found) => found,
                None => false,
            },
            VariableNameFilterType::Start => {
                proof { reveal_strlit("^"); }
                assert("^"@ =~= seq!['^']);
                let pattern = String::from_str("^").concat(
                    escape_regex(self.name_filter_str.as_str()).as_str(),
                );
                match regex_search(pattern.as_str(), ci, name) {
                    Some(found) => found,
                    None => false,
                }
            },
            VariableNameFilterType::Contain => {
                let pattern = escape_regex(self.name_filter_str.as_str());
                match regex_search(pattern.as_str(), ci, name) {
                    Some(found) => found,
                    None => false,
                }
            },
        }
    }

    /// The variables whose names pass the filter, in their order.
    pub open spec fn matching(&self, vars: Seq<VariableRef>) -> Seq<(Seq<String>, Seq<char>, usize)>
        decreases vars.len(),
    {
        if vars.len() == 0 {
            Seq::empty()
        } else if self.passes(vars.last().name@) {
            self.matching(vars.drop_last()).push(vars.last()@)
        } else {
            self.matching(vars.drop_last())
        }
    }

    /// The variables whose names pass the filter, in their order.
    pub fn matching_variables(&self, variables: &[VariableRef]) -> (r: Vec<VariableRef>)
        ensures
            r@.map_values(|v: VariableRef| v@) == self.matching(variables@),
    {
        let mut r: Vec<VariableRef> = Vec::new();
        let mut i: usize = 0;
        while i < variables.len()
            invariant
                i <= variables@.len(),
                r@.map_values(|v: VariableRef| v@) == self.matching(variables@.take(i as int)),
            decreases variables@.len() - i,
        {
            let v = &variables[i];
            proof {
                assert(variables@.take(i + 1).drop_last() =~= variables@.take(i as int));
            }
            if self.name_filter_fn(v.name.as_str()) {
                r.push(v.duplicate());
            }
            i = i + 1;
            assert(r@.map_values(|v: VariableRef| v@) =~= self.matching(variables@.take(i as int)));
        }
        assert(variables@.take(i as int) =~= variables@);
        r
    }
}

// ── Sorting by name ──────────────────────────────────────────────────────────

/// `x` placed into `sorted` after the last element whose name does not come
/// after `x`'s in numeric order.
pub open spec fn insert_by_name(
    sorted: Seq<(Seq<String>, Seq<char>, usize)>,
    x: (Seq<String>, Seq<char>, usize),
) -> Seq<(Seq<String>, Seq<char>, usize)>
    decreases sorted.len(),
{
    if sorted.len() == 0 {
        seq![x]
    } else if numeric_order(x.1, sorted.last().1) < 0 {
        insert_by_name(sorted.drop_last(), x).push(sorted.last())
    } else {
        sorted.push(x)
    }
}

/// `s` sorted stably by name in numeric order.
pub open spec fn sort_by_name(s: Seq<(Seq<String>, Seq<char>, usize)>) -> Seq<
    (Seq<String>, Seq<char>, usize),
>
    decreases s.len(),
{
    if s.len() == 0 {
        Seq::empty()
    } else {
        insert_by_name(sort_by_name(s.drop_last()), s.last())
    }
}

proof fn lemma_insert_split(
    s: Seq<(Seq<String>, Seq<char>, usize)>,
    x: (Seq<String>, Seq<char>, usize),
    k: int,
)
    requires
        0 <= k <= s.len(),
        forall|j: int| k <= j < s.len() ==> numeric_order(x.1, #[trigger] s[j].1) < 0,
        k > 0 ==> numeric_order(x.1, s[k - 1].1) >= 0,
    ensures
        insert_by_name(s, x) == s.take(k).push(x) + s.skip(k),
    decreases s.len(),
{
    if s.len() == k {
        assert(s.skip(k) =~= Seq::<(Seq<String>, Seq<char>, usize)>::empty());
        assert(s.take(k) =~= s);
        if k > 0 {
        }
    } else {
        assert(numeric_order(x.1, s[s.len() - 1].1) < 0);
        lemma_insert_split(s.drop_last(), x, k);
        assert(s.drop_last().take(k) =~= s.take(k));
        assert(s.drop_last().skip(k).push(s.last()) =~= s.skip(k));
        assert((s.take(k).push(x) + s.drop_last().skip(k)).push(s.last()) =~= s.take(k).push(x)
            + s.skip(k));
    }
}

/// Each name is not after the next one in numeric order.
pub open spec fn names_in_order(t: Seq<(Seq<String>, Seq<char>, usize)>) -> bool {
    forall|i: int| 0 <= i < t.len() - 1 ==> numeric_order(#[trigger] t[i].1, t[i + 1].1) <= 0
}

/// Sorts `vars` by name with `numeric_sort::cmp`, keeping the order of equal
/// names.
fn sort_variables_by_name(vars: Vec<VariableRef>) -> (r: Vec<VariableRef>)
    ensures
        r@.map_values(|v: VariableRef| v@) == sort_by_name(vars@.map_values(|v: VariableRef| v@)),
        r@.map_values(|v: VariableRef| v@).to_multiset() == vars@.map_values(
            |v: VariableRef| v@,
        ).to_multiset(),
        names_in_order(r@.map_values(|v: VariableRef| v@)),
{
    let ghost views = vars@.map_values(|v: VariableRef| v@);
    let mut sorted: Vec<VariableRef> = Vec::new();
    let mut i: usize = 0;
    assert(views.take(0) =~= Seq::<(Seq<String>, Seq<char>, usize)>::empty());
    assert(sorted@.map_values(|v: VariableRef| v@) =~= views.take(0));
    while i < vars.len()
        invariant
            i <= vars@.len(),
            views == vars@.map_values(|v: VariableRef| v@),
            sorted@.map_values(|v: VariableRef| v@) == sort_by_name(views.take(i as int)),
            sorted@.map_values(|v: VariableRef| v@).to_multiset() == views.take(
                i as int,
            ).to_multiset(),
            names_in_order(sorted@.map_values(|v: VariableRef| v@)),
        decreases vars@.len() - i,
    {
        let x = &vars[i];
        let ghost before = sorted@.map_values(|v: VariableRef| v@);
        let mut k = sorted.len();
        let mut found = false;
        while k > 0 && !found
            invariant
                k <= sorted@.len(),
                before == sorted@.map_values(|v: VariableRef| v@),
                x@ == views[i as int],
                forall|j: int| k <= j < before.len() ==> numeric_order(x.name@, #[trigger] before[j].1) < 0,
                found ==> k > 0 && numeric_order(x.name@, before[k - 1].1) >= 0 && numeric_order(
                    before[k - 1].1,
                    x.name@,
                ) <= 0,
            decreases k, if found { 0nat } else { 1nat },
        {
            let o = numeric_order_of(x.name.as_str(), sorted[k - 1].name.as_str());
            if o >= 0 {
                found = true;
            } else {
                k = k - 1;
            }
        }
        proof {
            lemma_insert_split(before, x@, k as int);
            assert(views.take(i + 1).drop_last() =~= views.take(i as int));
        }
        sorted.insert(k, x.duplicate());
        i = i + 1;
        proof {
            let after = sorted@.map_values(|v: VariableRef| v@);
            assert(after =~= before.take(k as int).push(views[i - 1]) + before.skip(k as int));
            assert(after =~= before.insert(k as int, views[i - 1]));
            vstd::seq_lib::to_multiset_insert(before, k as int, views[i - 1]);
            assert(views.take(i as int) =~= views.take(i - 1).push(views[i - 1]));
            vstd::seq_lib::to_multiset_build(views.take(i - 1), views[i - 1]);
            assert forall|j: int| 0 <= j < after.len() - 1 implies numeric_order(
                #[trigger] after[j].1,
                after[j + 1].1,
            ) <= 0 by {
                if j < k - 1 {
                    assert(after[j] == before[j] && after[j + 1] == before[j + 1]);
                } else if j == k - 1 {
                    assert(after[j] == before[j] && after[j + 1] == views[i - 1]);
                } else if j == k {
                    assert(after[j] == views[i - 1] && after[j + 1] == before[j]);
                } else {
                    assert(after[j] == before[j - 1] && after[j + 1] == before[j]);
                }
            }
        }
    }
    assert(views.take(i as int) =~= views);
    sorted
}

/// The variables whose names pass `variable_filter`, sorted by name in
/// numeric order (`"a2"` before `"a10"`), equal names in their given order.
pub fn filtered_variables(variables: &[VariableRef], variable_filter: &VariableFilter) -> (r: Vec<
    VariableRef,
>)
    ensures
        r@.map_values(|v: VariableRef| v@) == sort_by_name(variable_filter.matching(variables@)),
        r@.map_values(|v: VariableRef| v@).to_multiset() == variable_filter.matching(
            variables@,
        ).to_multiset(),
        names_in_order(r@.map_values(|v: VariableRef| v@)),
{
    let matching = variable_filter.matching_variables(variables);
    sort_variables_by_name(matching)
}

// ── The filter's controls ───────────────────────────────────────────────────

/// Every filter type, in the order in which the type menu lists them.
pub open spec fn filter_types_in_order() -> Seq<VariableNameFilterType> {
    seq![
        VariableNameFilterType::Fuzzy,
        VariableNameFilterType::Regex,
        VariableNameFilterType::Start,
        VariableNameFilterType::Contain,
    ]
}

/// One entry of the filter type menu.
pub struct FilterTypeChoice {
    pub filter_type: VariableNameFilterType,
    pub label: String,
    /// Whether this is the type in use (its radio button is on).
    pub selected: bool,
}

/// The entries of the filter type menu, with `current` selected.
pub fn variable_name_filter_type_choices(current: VariableNameFilterType) -> (r: Vec<FilterTypeChoice>)
    ensures
        r@.len() == filter_types_in_order().len(),
        forall|i: int|
            0 <= i < r@.len() ==> {
                &&& (#[trigger] r@[i]).filter_type == filter_types_in_order()[i]
                &&& r@[i].label@ == filter_type_name(filter_types_in_order()[i])
                &&& r@[i].selected == (filter_types_in_order()[i] == current)
            },
{
    let mut types: Vec<VariableNameFilterType> = Vec::new();
    types.push(VariableNameFilterType::Fuzzy);
    types.push(VariableNameFilterType::Regex);
    types.push(VariableNameFilterType::Start);
    types.push(VariableNameFilterType::Contain);
    assert(types@ =~= filter_types_in_order());
    let mut r: Vec<FilterTypeChoice> = Vec::new();
    let mut i: usize = 0;
    while i < types.len()
        invariant
            types@ == filter_types_in_order(),
            i <= types@.len(),
            r@.len() == i,
            forall|j: int|
                0 <= j < i ==> {
                    &&& (#[trigger] r@[j]).filter_type == filter_types_in_order()[j]
                    &&& r@[j].label@ == filter_type_name(filter_types_in_order()[j])
                    &&& r@[j].selected == (filter_types_in_order()[j] == current)
                },
        decreases types@.len() - i,
    {
        let t = types[i];
        r.push(FilterTypeChoice { filter_type: t, label: t.to_string(), selected: t == current });
        i = i + 1;
    }
    r
}

impl VariableFilter {
    /// Whether the filter text is marked as wrong: a regular expression that
    /// does not compile (checked as `Regex::new` does, respecting case).
    pub fn shows_regex_error(&self) -> (r: bool)
        ensures
            r == (self.name_filter_type == VariableNameFilterType::Regex && !regex_compiles(
                self.name_filter_str@,
                false,
            )),
    {
        match self.name_filter_type {
            VariableNameFilterType::Regex => regex_search(self.name_filter_str.as_str(), false, "").is_none(),
            _ => false,
        }
    }

    /// The case button: the `name_filter_case_insensitive` it asks for, the
    /// opposite of the current one.
    pub fn toggled_case_insensitivity(&self) -> (r: bool)
        ensures
            r == !self.name_filter_case_insensitive,
    {
        !self.name_filter_case_insensitive
    }

    /// Whether the Clear button is enabled: while there is filter text.
    pub fn can_clear(&self) -> (r: bool)
        ensures
            r == (self.name_filter_str@.len() > 0),
    {
        !self.name_filter_str.as_str().is_empty()
    }

    /// The Clear button: empties the filter text.
    pub fn clear(&mut self)
        ensures
            final(self).name_filter_str@ == Seq::<char>::empty(),
            final(self).name_filter_type == old(self).name_filter_type,
            final(self).name_filter_case_insensitive == old(self).name_filter_case_insensitive,
    {
        self.name_filter_str = String::new();
    }
}

// ── Laws ─────────────────────────────────────────────────────────────────────

/// With no filter text every variable matches, in its order.
pub proof fn lemma_empty_filter_keeps_all(filter: VariableFilter, vars: Seq<VariableRef>)
    requires
        filter.name_filter_str@.len() == 0,
    ensures
        filter.matching(vars) == vars.map_values(|v: VariableRef| v@),
    decreases vars.len(),
{
    if vars.len() > 0 {
        lemma_empty_filter_keeps_all(filter, vars.drop_last());
        assert(vars.map_values(|v: VariableRef| v@) =~= vars.drop_last().map_values(
            |v: VariableRef| v@,
        ).push(vars.last()@));
    } else {
        assert(vars.map_values(|v: VariableRef| v@) =~= Seq::<(Seq<String>, Seq<char>, usize)>::empty());
    }
}

/// Every variable that matches passes the filter and is one of the given
/// variables, and there are no more of them than variables.
pub proof fn lemma_matching_passes(filter: VariableFilter, vars: Seq<VariableRef>)
    ensures
        filter.matching(vars).len() <= vars.len(),
        forall|i: int|
            0 <= i < filter.matching(vars).len() ==> filter.passes(#[trigger] filter.matching(vars)[i].1)
                && exists|j: int| 0 <= j < vars.len() && vars[j]@ == filter.matching(vars)[i],
    decreases vars.len(),
{
    if vars.len() > 0 {
        lemma_matching_passes(filter, vars.drop_last());
        let prev = filter.matching(vars.drop_last());
        let m = filter.matching(vars);
        assert forall|i: int| 0 <= i < m.len() implies filter.passes(#[trigger] m[i].1) && exists|j: int|
            0 <= j < vars.len() && vars[j]@ == m[i] by {
            if i < prev.len() {
                assert(m[i] == prev[i]);
                assert(filter.passes(prev[i].1));
                let j = choose|j: int| 0 <= j < vars.drop_last().len() && vars.drop_last()[j]@ == prev[i];
                assert(vars[j]@ == m[i]);
            } else {
                assert(m[i] == vars.last()@);
                assert(vars[vars.len() - 1]@ == m[i]);
            }
        }
    }
}

/// Filtering the concatenation of two lists of variables gives the
/// concatenation of their filtered lists.
pub proof fn lemma_matching_concat(filter: VariableFilter, a: Seq<VariableRef>, b: Seq<VariableRef>)
    ensures
        filter.matching(a + b) == filter.matching(a) + filter.matching(b),
    decreases b.len(),
{
    if b.len() == 0 {
        assert(a + b =~= a);
        assert(filter.matching(a) + filter.matching(b) =~= filter.matching(a));
    } else {
        lemma_matching_concat(filter, a, b.drop_last());
        assert((a + b).drop_last() =~= a + b.drop_last());
        assert((a + b).last() == b.last());
        if filter.passes(b.last().name@) {
            assert(filter.matching(a) + filter.matching(b) =~= (filter.matching(a) + filter.matching(
                b.drop_last(),
            )).push(b.last()@));
        }
    }
}

/// A list whose every variable passes the filter is kept whole.
proof fn lemma_matching_all_pass(filter: VariableFilter, m: Seq<VariableRef>)
    requires
        forall|i: int| 0 <= i < m.len() ==> filter.passes(#[trigger] m[i].name@),
    ensures
        filter.matching(m) == m.map_values(|v: VariableRef| v@),
    decreases m.len(),
{
    if m.len() > 0 {
        assert forall|i: int| 0 <= i < m.drop_last().len() implies filter.passes(
            #[trigger] m.drop_last()[i].name@,
        ) by {
            assert(m.drop_last()[i] == m[i]);
        }
        lemma_matching_all_pass(filter, m.drop_last());
        assert(filter.passes(m[m.len() - 1].name@));
        assert(m.map_values(|v: VariableRef| v@) =~= m.drop_last().map_values(|v: VariableRef| v@).push(
            m.last()@,
        ));
    } else {
        assert(m.map_values(|v: VariableRef| v@) =~= Seq::<(Seq<String>, Seq<char>, usize)>::empty());
    }
}

/// Filtering is idempotent: filtering the variables that a filter kept
/// keeps them all.
pub proof fn lemma_matching_idempotent(filter: VariableFilter, vars: Seq<VariableRef>, kept: Seq<VariableRef>)
    requires
        kept.map_values(|v: VariableRef| v@) == filter.matching(vars),
    ensures
        filter.matching(kept) == filter.matching(vars),
{
    lemma_matching_passes(filter, vars);
    assert forall|i: int| 0 <= i < kept.len() implies filter.passes(#[trigger] kept[i].name@) by {
        assert(kept.map_values(|v: VariableRef| v@)[i] == kept[i]@);
        assert(filter.matching(vars)[i].1 == kept[i].name@);
        assert(filter.passes(filter.matching(vars)[i].1));
    }
    lemma_matching_all_pass(filter, kept);
}

/// A filter with text judges a name by its own kind and its own case
/// setting: the fuzzy matcher set to ignore case exactly when the filter
/// does; for a regular expression, the text itself; for "starts with", `^`
/// and the text with its meta characters escaped; for "contains", the
/// escaped text; each regex built case-insensitively exactly when the
/// filter is, and the name passing when it compiles and finds a match.
pub proof fn lemma_filter_uses_its_settings(filter: VariableFilter, name: Seq<char>)
    requires
        filter.name_filter_str@.len() > 0,
    ensures
        ({
            let text = filter.name_filter_str@;
            let ci = filter.name_filter_case_insensitive;
            let start = seq!['^'] + regex_escape_spec(text);
            let contain = regex_escape_spec(text);
            &&& filter.name_filter_type == VariableNameFilterType::Fuzzy ==> (filter.passes(name)
                <==> skim_fuzzy_score(name, text, ci) is Some)
            &&& filter.name_filter_type == VariableNameFilterType::Regex ==> (filter.passes(name)
                <==> (regex_compiles(text, ci) && regex_finds(text, ci, name)))
            &&& filter.name_filter_type == VariableNameFilterType::Start ==> (filter.passes(name)
                <==> (regex_compiles(start, ci) && regex_finds(start, ci, name)))
            &&& filter.name_filter_type == VariableNameFilterType::Contain ==> (filter.passes(name)
                <==> (regex_compiles(contain, ci) && regex_finds(contain, ci, name)))
        }),
{
}

/// Two filters that differ only in their case setting judge a name with the
/// same pattern, built with each one's own setting.
pub proof fn lemma_case_setting_selects_the_regex(f: VariableFilter, g: VariableFilter, name: Seq<char>)
    requires
        f.name_filter_type == g.name_filter_type,
        f.name_filter_str@ == g.name_filter_str@,
        f.name_filter_str@.len() > 0,
        f.name_filter_type != VariableNameFilterType::Fuzzy,
        f.name_filter_case_insensitive,
        !g.name_filter_case_insensitive,
    ensures
        ({
            let text = f.name_filter_str@;
            let p = match f.name_filter_type {
                VariableNameFilterType::Start => seq!['^'] + regex_escape_spec(text),
                VariableNameFilterType::Contain => regex_escape_spec(text),
                _ => text,
            };
            &&& f.passes(name) <==> (regex_compiles(p, true) && regex_finds(p, true, name))
            &&& g.passes(name) <==> (regex_compiles(p, false) && regex_finds(p, false, name))
        }),
{
}

} // verus!
