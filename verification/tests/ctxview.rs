use blogview::ctxview::{CtxParser, NodeKind, TreeBuilder};

fn dump(b: &TreeBuilder) -> String {
    String::from_utf8(b.show()).unwrap()
}

#[test]
fn ctxview_test_tree_builder() {
    let mut b = TreeBuilder::new();
    b.add(NodeKind::Bool, 2, 3, 4, 5);
    b.add(NodeKind::Int, 3, 4, 5, 6);
    b.add(NodeKind::Group, 31, 32, 33, 34);
    b.enter_group();
    b.add(NodeKind::Bool, 32, 33, 34, 35);
    b.add(NodeKind::Int, 33, 34, 35, 36);
    b.add(NodeKind::Group, 331, 332, 333, 333);
    b.enter_group();
    b.add(NodeKind::F32, 332, 333, 334, 335);
    b.leave_group();
    b.add(NodeKind::Str, 35, 36, 37, 38);
    b.leave_group();
    b.add(NodeKind::Bytes, 5, 6, 7, 8);

    println!();
    let text = dump(&b);
    println!("{text}");
    let lines: Vec<&str> = text.lines().collect();
    assert_eq!(lines.len(), 9);
    assert_eq!(lines[0], "000 bool       next[020] child[000] key.len[002] key.off[003] val[004] val.off[005]");
    assert_eq!(lines[2], "040 group      next[100] child[060] key.len[031] key.off[032] val[033] val.off[034]");
    assert_eq!(lines[8], "100 bytes      next[000] child[000] key.len[005] key.off[006] val[007] val.off[008]");
}

#[test]
fn empty_builder_dump() {
    let b = TreeBuilder::new();
    assert_eq!(dump(&b), "empty\n");
}

#[test]
fn empty_group_is_marked() {
    let mut b = TreeBuilder::new();
    b.add(NodeKind::Group, 1, 2, 3, 4);
    b.enter_group();
    b.leave_group();
    b.add(NodeKind::Bool, 1, 2, 3, 4);
    assert_eq!(b.ctrl[0].child, u32::MAX);
    assert_eq!(b.ctrl[0].next, 32);
    let t = b.finish();
    assert_eq!(t.ctrl.len(), 2);
    b.reset();
    assert_eq!(b.ctrl.len(), 0);
    assert_eq!(b.off, 0);
}

#[test]
fn build_struct_links_stages() {
    // CTX stage, then a string "k" = "v", then a new stage "n" with text "t".
    let mut src: Vec<u8> = vec![3];
    src.extend_from_slice(&[26, 1, b'k', 1, b'v']);
    src.extend_from_slice(&[1, 1, b'n', 1, b't']);
    let mut p = CtxParser::new();
    p.build_struct(&src);
    let n = &p.builder.ctrl;
    assert_eq!(n.len(), 3);
    assert_eq!(n[0].kind, NodeKind::ErrorStageCtx);
    assert_eq!(n[0].child, 32);
    assert_eq!(n[1].kind, NodeKind::Str);
    assert_eq!((n[1].key_len, n[1].key_off, n[1].val_len, n[1].val_off), (1, 3, 1, 5));
    assert_eq!(n[2].kind, NodeKind::ErrorStageNew);
    assert_eq!(n[1].next, 0);
    assert_eq!(n[0].next, 64);
    assert_eq!(p.builder.stack, vec![64]);
}
