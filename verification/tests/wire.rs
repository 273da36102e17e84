use panopt::lists::{parse_extra_args, render_list};
use panopt::modes::{TodoFilter, TodoSort};
use panopt::wire::{
    parse_agent_labels, parse_view_state, parse_viewer_routing, render_agent_labels,
    render_routing, render_view_state, view_field, ViewState,
};

#[test]
fn a_view_is_read_back() {
    let v = ViewState {
        cursor: 4,
        scroll: 2,
        filter: TodoFilter::Completed,
        sort_1: TodoSort::ModifiedDesc,
        sort_2: TodoSort::CreatedAsc,
        show_help: true,
        seq: u64::MAX,
    };
    let body = render_view_state(&v);
    let back = parse_view_state(&body).unwrap();
    assert_eq!((back.cursor, back.scroll, back.seq), (4, 2, u64::MAX));
    assert_eq!(back.filter, TodoFilter::Completed);
    assert_eq!(back.sort_1, TodoSort::ModifiedDesc);
    assert_eq!(back.sort_2, TodoSort::CreatedAsc);
    assert!(back.show_help);
    assert!(parse_view_state("{}").is_none());
}

#[test]
fn every_field_of_a_view_is_written() {
    let v = ViewState {
        cursor: 0,
        scroll: 7,
        filter: TodoFilter::All,
        sort_1: TodoSort::PriorityDesc,
        sort_2: TodoSort::ModifiedAsc,
        show_help: false,
        seq: 3,
    };
    let body = render_view_state(&v);
    assert_eq!(view_field(&body, "cursor"), Some(0));
    assert_eq!(view_field(&body, "scroll"), Some(7));
    assert_eq!(view_field(&body, "filter"), Some(0));
    assert_eq!(view_field(&body, "sort1"), Some(0));
    assert_eq!(view_field(&body, "sort2"), Some(3));
    assert_eq!(view_field(&body, "help"), Some(0));
    assert_eq!(view_field(&body, "seq"), Some(3));
    assert_eq!(view_field(&body, "sort"), None);
}

#[test]
fn labels_are_read_back() {
    let labels = vec![
        (4u32, "Mediator".to_string()),
        (9, "a \"b\", c\\d: {x}".to_string()),
        (11, String::new()),
    ];
    let body = render_agent_labels(&labels);
    assert_eq!(parse_agent_labels(&body), labels);
    assert_eq!(render_agent_labels(&vec![]), "{}");
}

#[test]
fn a_malformed_label_file_names_no_label() {
    assert_eq!(
        parse_agent_labels(r#"{"4":"a", "9":"b"}"#),
        vec![(4, "a".to_string()), (9, "b".to_string())]
    );
    assert!(parse_agent_labels(r#"{"4":"a",nine:"b"}"#).is_empty());
    assert!(parse_agent_labels(r#"{"4":"a","9"}"#).is_empty());
    assert!(parse_agent_labels(r#"{"4":"a","9":b}"#).is_empty());
    assert!(parse_agent_labels(r#"{"4":"a","x":"b"}"#).is_empty());
    assert!(parse_agent_labels(r#"{"4":"a",}"#).is_empty());
}

#[test]
fn unknown_codes_of_a_view_fall_back_to_the_defaults() {
    let body = r#"{"cursor":1,"scroll":0,"filter":8,"sort1":5,"sort2":200,"help":0,"seq":2}"#;
    let v = parse_view_state(body).unwrap();
    assert_eq!(v.filter, TodoFilter::Active);
    assert_eq!(v.sort_1, TodoSort::PriorityDesc);
    assert_eq!(v.sort_2, TodoSort::CreatedAsc);
    let body = r#"{"filter":256,"sort1":258,"sort2":260,"seq":2}"#;
    let v = parse_view_state(body).unwrap();
    assert_eq!(v.filter, TodoFilter::Active);
    assert_eq!(v.sort_1, TodoSort::PriorityDesc);
    assert_eq!(v.sort_2, TodoSort::CreatedAsc);
}

#[test]
fn routing_is_read_back() {
    assert_eq!(render_routing("todo", Some(30)), r#"{"kind":"todo","id":30}"#);
    assert_eq!(render_routing("empty", None), r#"{"kind":"empty"}"#);
    assert_eq!(
        parse_viewer_routing(&render_routing("note", Some(u64::MAX))),
        (Some("note".to_string()), Some(u64::MAX))
    );
    assert_eq!(
        parse_viewer_routing(&render_routing("todo-list", None)),
        (Some("todo-list".to_string()), None)
    );
}

#[test]
fn stored_lists_are_read_back() {
    let tags = vec!["a".to_string(), "b \"c\"\n".to_string(), "é,".to_string()];
    let stored = render_list(&tags);
    assert_ne!(stored, "a");
    assert_eq!(parse_extra_args(&stored), tags);
    assert_eq!(render_list(&vec![]), "[]");
    assert_eq!(
        parse_extra_args(r#"["--model","opus"]"#),
        vec!["--model", "opus"]
    );
    // What is no list counts as an empty one.
    assert!(parse_extra_args("").is_empty());
    assert!(parse_extra_args("{}").is_empty());
    assert!(parse_extra_args("[1]").is_empty());
}
