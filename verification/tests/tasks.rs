use nodo::markdown::Markdown;
use nodo::tasks::TaskCount;

#[test]
fn counts_tasks_in_top_level_list() {
    let md = "- plain item\n- [ ] open task\n- [x] done task";
    let nodo = Markdown::parse(md).unwrap();
    let count = nodo.count_tasks();
    assert_eq!(count, TaskCount { completed: 1, total: 2 });
}

#[test]
fn counts_ignore_nested_lists() {
    let md = "- [ ] outer task\n\n    - [x] inner task\n\n# heading";
    let nodo = Markdown::parse(md).unwrap();
    let count = nodo.count_tasks();
    // only the top-level list is scanned
    assert_eq!(count.total, 1);
    assert_eq!(count.completed, 0);
}

#[test]
fn document_without_tasks_counts_zero() {
    let md = "just a paragraph";
    let nodo = Markdown::parse(md).unwrap();
    let count = nodo.count_tasks();
    assert_eq!(count, TaskCount { completed: 0, total: 0 });
}
