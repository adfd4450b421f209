use blogview::ctxview::{NodeKind, TreeBuilder};

#[test]
fn logview_test_tree_builder() {
    let mut b = TreeBuilder::new();
    b.add(NodeKind::Bool, 2, 3, 4, 5);
    b.add(NodeKind::Int, 3, 4, 5, 6);
    b.add(NodeKind::Group, 31, 32, 33, 34);
    b.enter_group();
    b.add(NodeKind::Bool, 32, 33, 34, 35);
    b.add(NodeKind::Int, 33, 34, 35, 36);
    b.add(NodeKind::Group, 331, 332, 333, 333);
    b.enter_group();
    b.add(NodeKind::F32, 332, 333, 334, 335);
    b.leave_group();
    b.add(NodeKind::Str, 35, 36, 37, 38);
    b.leave_group();
    b.add(NodeKind::Bytes, 5, 6, 7, 8);

    println!();
    let text = String::from_utf8(b.show()).unwrap();
    println!("{text}");
    assert_eq!(text.lines().count(), 9);
}
