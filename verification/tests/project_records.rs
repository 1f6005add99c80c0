use sprite_pipeline::json::Json;
use sprite_pipeline::models::{ChildInputs, ChildMode, ChildOutputs, ChildType};
use sprite_pipeline::records::{
    add_child, assemble_project, new_project_record, next_child_name, normalize_project_name,
    rename_project, sort_by_recency, Child, OpenRouterSnapshot, ProjectRecord, Timestamp,
};

fn at(seconds: i64, nanos: u32) -> Timestamp {
    Timestamp { seconds, nanos }
}

fn record(id: &str, updated: Timestamp) -> ProjectRecord {
    ProjectRecord {
        id: id.to_string(),
        name: format!("project {id}"),
        created_at: at(0, 0),
        updated_at: updated,
        child_ids: Vec::new(),
    }
}

fn child(id: &str, child_type: ChildType) -> Child {
    Child {
        id: id.to_string(),
        project_id: "p".to_string(),
        child_type,
        name: String::new(),
        created_at: at(0, 0),
        mode: ChildMode::Normal,
        inputs: ChildInputs::default(),
        openrouter: OpenRouterSnapshot { model: String::new(), payload: Json::Null },
        outputs: ChildOutputs::default(),
    }
}

fn ids(records: &[ProjectRecord]) -> Vec<&str> {
    records.iter().map(|record| record.id.as_str()).collect()
}

#[test]
fn instants_are_ordered_by_seconds_then_nanoseconds() {
    assert!(at(2, 0).later_than(&at(1, 999)));
    assert!(at(1, 5).later_than(&at(1, 4)));
    assert!(!at(1, 4).later_than(&at(1, 4)));
    assert!(!at(1, 4).later_than(&at(1, 5)));
    assert!(!at(-3, 0).later_than(&at(-2, 0)));
    assert!(at(0, 0).later_than(&at(-1, 999_999_999)));
}

#[test]
fn summary_counts_the_children() {
    let mut project = record("a", at(9, 1));
    project.child_ids = vec!["x".to_string(), "y".to_string()];
    let summary = project.to_summary();
    assert_eq!(summary.id, "a");
    assert_eq!(summary.name, "project a");
    assert_eq!(summary.created_at, at(0, 0));
    assert_eq!(summary.updated_at, at(9, 1));
    assert_eq!(summary.child_count, 2);
}

#[test]
fn project_names_are_trimmed_or_made_of_the_date() {
    assert_eq!(normalize_project_name(Some("  My Sprites ".to_string()), "01-02-2025"), "My Sprites");
    assert_eq!(normalize_project_name(Some("   ".to_string()), "01-02-2025"), "sprite-project-01-02-2025");
    assert_eq!(normalize_project_name(Some(String::new()), "01-02-2025"), "sprite-project-01-02-2025");
    assert_eq!(normalize_project_name(None, "01-02-2025"), "sprite-project-01-02-2025");
}

#[test]
fn new_projects_have_no_children() {
    let project = new_project_record("id-1".to_string(), Some(" fox ".to_string()), "01-02-2025", at(7, 3));
    assert_eq!(project.id, "id-1");
    assert_eq!(project.name, "fox");
    assert_eq!(project.created_at, at(7, 3));
    assert_eq!(project.updated_at, at(7, 3));
    assert!(project.child_ids.is_empty());
    let unnamed = new_project_record("id-2".to_string(), None, "01-02-2025", at(7, 3));
    assert_eq!(unnamed.name, "sprite-project-01-02-2025");
}

#[test]
fn renaming_needs_a_name_that_holds_something() {
    let mut project = record("a", at(1, 0));
    assert!(rename_project(&mut project, Some(" new name\n".to_string()), at(5, 0)));
    assert_eq!(project.name, "new name");
    assert_eq!(project.updated_at, at(5, 0));
    assert_eq!(project.created_at, at(0, 0));
    for name in [None, Some(String::new()), Some(" \t".to_string())] {
        let mut project = record("a", at(1, 0));
        assert!(!rename_project(&mut project, name, at(5, 0)));
        assert_eq!(project.name, "project a");
        assert_eq!(project.updated_at, at(1, 0));
    }
}

#[test]
fn children_are_added_at_the_end() {
    let mut project = record("a", at(1, 0));
    add_child(&mut project, "c1", at(2, 0));
    add_child(&mut project, "c2", at(3, 0));
    assert_eq!(project.child_ids, vec!["c1".to_string(), "c2".to_string()]);
    assert_eq!(project.updated_at, at(3, 0));
    assert_eq!(project.name, "project a");
}

#[test]
fn projects_are_assembled_from_record_and_children() {
    let project = assemble_project(
        record("a", at(4, 0)),
        vec![child("c1", ChildType::Generate), child("c2", ChildType::Edit)],
    );
    assert_eq!(project.id, "a");
    assert_eq!(project.name, "project a");
    assert_eq!(project.updated_at, at(4, 0));
    assert_eq!(project.children.len(), 2);
    assert_eq!(project.children[1].id, "c2");
}

#[test]
fn children_are_numbered_within_their_type() {
    let children = vec![
        child("a", ChildType::Generate),
        child("b", ChildType::Edit),
        child("c", ChildType::Generate),
    ];
    assert_eq!(next_child_name(&children, ChildType::Generate), "gen-0003");
    assert_eq!(next_child_name(&children, ChildType::Edit), "edit-0002");
    assert_eq!(next_child_name(&Vec::new(), ChildType::Generate), "gen-0001");
    assert_eq!(next_child_name(&Vec::new(), ChildType::Edit), "edit-0001");
    let many: Vec<Child> = (0..9_999).map(|_| child("x", ChildType::Edit)).collect();
    assert_eq!(next_child_name(&many, ChildType::Edit), "edit-10000");
    assert_eq!(next_child_name(&many, ChildType::Generate), "gen-0001");
}

#[test]
fn records_are_listed_latest_first() {
    let sorted = sort_by_recency(vec![
        record("old", at(1, 0)),
        record("new", at(9, 0)),
        record("mid", at(5, 0)),
        record("newer-by-nanos", at(9, 1)),
    ]);
    assert_eq!(ids(&sorted), vec!["newer-by-nanos", "new", "mid", "old"]);
    assert!(sort_by_recency(Vec::new()).is_empty());
    assert_eq!(ids(&sort_by_recency(vec![record("only", at(3, 3))])), vec!["only"]);
}

#[test]
fn records_updated_at_one_instant_keep_their_order() {
    let sorted = sort_by_recency(vec![
        record("a", at(5, 0)),
        record("b", at(7, 0)),
        record("c", at(5, 0)),
        record("d", at(7, 0)),
        record("e", at(5, 0)),
    ]);
    assert_eq!(ids(&sorted), vec!["b", "d", "a", "c", "e"]);
    let mut expected = vec![
        record("a", at(5, 0)),
        record("b", at(7, 0)),
        record("c", at(5, 0)),
        record("d", at(7, 0)),
        record("e", at(5, 0)),
    ];
    expected.sort_by(|x, y| {
        (y.updated_at.seconds, y.updated_at.nanos).cmp(&(x.updated_at.seconds, x.updated_at.nanos))
    });
    assert_eq!(ids(&sorted), ids(&expected));
}
