use libsurfer::variable_filter::variable_name_filter_type_choices;
use libsurfer::variable_filter::{filtered_variables, VariableFilter, VariableNameFilterType};
use libsurfer::wave::VariableRef;

fn filter(kind: VariableNameFilterType, text: &str, case_insensitive: bool) -> VariableFilter {
    VariableFilter {
        name_filter_type: kind,
        name_filter_str: text.to_string(),
        name_filter_case_insensitive: case_insensitive,
    }
}

fn vars(names: &[&str]) -> Vec<VariableRef> {
    names
        .iter()
        .enumerate()
        .map(|(i, n)| VariableRef { path: vec!["tb".to_string()], name: n.to_string(), id: i })
        .collect()
}

fn names(v: &[VariableRef]) -> Vec<String> {
    v.iter().map(|r| r.name.clone()).collect()
}

#[test]
fn new_filter_is_empty_contain_ignoring_case() {
    let f = VariableFilter::new();
    assert_eq!(f.name_filter_type, VariableNameFilterType::Contain);
    assert_eq!(f.name_filter_str, "");
    assert!(f.name_filter_case_insensitive);
    assert!(f.name_filter_fn("anything"));
    assert!(f.name_filter_fn(""));
}

#[test]
fn filter_type_names() {
    assert_eq!(VariableNameFilterType::Fuzzy.to_string(), "Fuzzy");
    assert_eq!(VariableNameFilterType::Regex.to_string(), "Regular expression");
    assert_eq!(VariableNameFilterType::Start.to_string(), "Variable starts with");
    assert_eq!(VariableNameFilterType::Contain.to_string(), "Variable contains");
}

#[test]
fn contain_filter() {
    let f = filter(VariableNameFilterType::Contain, "clk", true);
    assert!(f.name_filter_fn("sys_CLK"));
    assert!(f.name_filter_fn("clk"));
    assert!(!f.name_filter_fn("data"));
    let cs = filter(VariableNameFilterType::Contain, "clk", false);
    assert!(!cs.name_filter_fn("sys_CLK"));
    assert!(cs.name_filter_fn("sys_clk"));
}

#[test]
fn contain_filter_takes_text_literally() {
    let f = filter(VariableNameFilterType::Contain, "a.b", true);
    assert!(f.name_filter_fn("xa.by"));
    assert!(!f.name_filter_fn("axb"));
    let g = filter(VariableNameFilterType::Contain, "(", true);
    assert!(g.name_filter_fn("f(x)"));
    assert!(!g.name_filter_fn("fx"));
}

#[test]
fn start_filter() {
    let f = filter(VariableNameFilterType::Start, "da", true);
    assert!(f.name_filter_fn("data"));
    assert!(f.name_filter_fn("DAta"));
    assert!(!f.name_filter_fn("udata"));
}

#[test]
fn regex_filter() {
    let f = filter(VariableNameFilterType::Regex, "^d.*a$", true);
    assert!(f.name_filter_fn("data"));
    assert!(!f.name_filter_fn("datum"));
    let bad = filter(VariableNameFilterType::Regex, "(", true);
    assert!(!bad.name_filter_fn("("));
    assert!(!bad.name_filter_fn("anything"));
}

#[test]
fn fuzzy_filter() {
    let f = filter(VariableNameFilterType::Fuzzy, "dt", true);
    assert!(f.name_filter_fn("data"));
    assert!(!f.name_filter_fn("clk"));
    let cs = filter(VariableNameFilterType::Fuzzy, "DT", false);
    assert!(!cs.name_filter_fn("data"));
    assert!(cs.name_filter_fn("DaTa"));
}

#[test]
fn matching_variables_keeps_order() {
    let f = filter(VariableNameFilterType::Contain, "a", true);
    let m = f.matching_variables(&vars(&["a10", "b", "a2", "ca"]));
    assert_eq!(names(&m), vec!["a10", "a2", "ca"]);
    assert_eq!(m[1].id, 2);
}

#[test]
fn empty_filter_matches_all() {
    let f = VariableFilter::new();
    let m = f.matching_variables(&vars(&["z", "y", "x"]));
    assert_eq!(names(&m), vec!["z", "y", "x"]);
}

#[test]
fn filtered_variables_sorts_numerically() {
    let f = filter(VariableNameFilterType::Contain, "a", true);
    let r = filtered_variables(&vars(&["a10", "b1", "a2", "a1"]), &f);
    assert_eq!(names(&r), vec!["a1", "a2", "a10"]);
    let all = filtered_variables(&vars(&["sig10", "sig9", "clk"]), &VariableFilter::new());
    assert_eq!(names(&all), vec!["clk", "sig9", "sig10"]);
}

#[test]
fn filtered_variables_keeps_equal_names_in_order() {
    let v = vec![
        VariableRef { path: vec!["x".to_string()], name: "n".to_string(), id: 7 },
        VariableRef { path: vec!["y".to_string()], name: "n".to_string(), id: 3 },
    ];
    let r = filtered_variables(&v, &VariableFilter::new());
    assert_eq!(r[0].id, 7);
    assert_eq!(r[1].id, 3);
}

#[test]
fn filter_type_menu_lists_all_types() {
    let choices = variable_name_filter_type_choices(VariableNameFilterType::Start);
    let kinds: Vec<VariableNameFilterType> = choices.iter().map(|c| c.filter_type).collect();
    assert_eq!(
        kinds,
        vec![
            VariableNameFilterType::Fuzzy,
            VariableNameFilterType::Regex,
            VariableNameFilterType::Start,
            VariableNameFilterType::Contain
        ]
    );
    let selected: Vec<bool> = choices.iter().map(|c| c.selected).collect();
    assert_eq!(selected, vec![false, false, true, false]);
    assert_eq!(choices[1].label, "Regular expression");
}

#[test]
fn regex_error_and_clear() {
    let mut f = filter(VariableNameFilterType::Regex, "a(", true);
    assert!(f.shows_regex_error());
    assert!(f.can_clear());
    f.clear();
    assert_eq!(f.name_filter_str, "");
    assert!(!f.can_clear());
    assert!(!f.shows_regex_error());
    assert_eq!(f.name_filter_type, VariableNameFilterType::Regex);
    let ok = filter(VariableNameFilterType::Regex, "a+", true);
    assert!(!ok.shows_regex_error());
    let contain = filter(VariableNameFilterType::Contain, "a(", true);
    assert!(!contain.shows_regex_error());
}

#[test]
fn case_button_asks_for_the_opposite() {
    assert!(!VariableFilter::new().toggled_case_insensitivity());
    assert!(filter(VariableNameFilterType::Fuzzy, "a", false).toggled_case_insensitivity());
}
