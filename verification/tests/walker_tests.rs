use dtar::codec::TarOutput;
use dtar::config::{tar_name_for, validate_main_dir_name, validate_output_targets};
use dtar::pattern::{parse_regex, Pattern};
use dtar::walker::{
    is_allowed_name, DirWalkItem, DirWalkIterator, DirWalkType, FsNode, ResolvedNode,
    SymlinkTarget,
};
use dtar::TarError;

/// An in-memory tree standing in for the filesystem during a walk.
#[derive(Clone)]
enum Node {
    File(Vec<u8>),
    Dir(Vec<(Vec<u8>, Node)>),
}

fn lookup<'a>(root_name: &[u8], root: &'a Node, rel: &[Vec<u8>]) -> &'a Node {
    assert_eq!(rel[0], root_name.to_vec());
    let mut cur = root;
    for comp in &rel[1..] {
        match cur {
            Node::Dir(children) => {
                cur = &children.iter().find(|(n, _)| n == comp).unwrap().1;
            }
            Node::File(_) => panic!("component under a file"),
        }
    }
    cur
}

fn node_event(n: &Node) -> FsNode {
    match n {
        Node::File(content) => FsNode::File { size: content.len() as u64 },
        Node::Dir(children) => FsNode::Dir {
            children: children.iter().map(|(name, _)| name.clone()).collect(),
        },
    }
}

fn run_walk(
    root_name: &[u8],
    root: &Node,
    patterns: Vec<Pattern>,
    empty_dirs_ignored: bool,
) -> Result<Vec<DirWalkItem>, TarError> {
    let mut walker = DirWalkIterator::new(
        b"/base".to_vec(),
        vec![vec![root_name.to_vec()]],
        patterns,
        empty_dirs_ignored,
        false,
    );
    let mut items = Vec::new();
    while let Some(rel) = walker.next_path() {
        let node = node_event(lookup(root_name, root, &rel));
        match walker.step(rel, node)? {
            Some(item) => items.push(item),
            None => {}
        }
    }
    Ok(items)
}

fn rel_strings(items: &[DirWalkItem]) -> Vec<String> {
    items
        .iter()
        .map(|i| {
            i.relpath
                .iter()
                .map(|c| String::from_utf8(c.clone()).unwrap())
                .collect::<Vec<_>>()
                .join("/")
        })
        .collect()
}

fn sample_tree() -> Node {
    // children deliberately listed out of order
    Node::Dir(vec![
        (b"b".to_vec(), Node::File(b"bb".to_vec())),
        (
            b"a".to_vec(),
            Node::Dir(vec![
                (b"z.txt".to_vec(), Node::File(b"zz".to_vec())),
                (b"y.txt".to_vec(), Node::File(b"yy".to_vec())),
            ]),
        ),
        (b".git".to_vec(), Node::Dir(vec![(b"config".to_vec(), Node::File(b"c".to_vec()))])),
        (b"c".to_vec(), Node::File(b"cc".to_vec())),
    ])
}

#[test]
fn walk_orders_children_ascending_depth_first() {
    let items = run_walk(b"root", &sample_tree(), Vec::new(), false).unwrap();
    assert_eq!(
        rel_strings(&items),
        vec!["root", "root/.git", "root/.git/config", "root/a", "root/a/y.txt", "root/a/z.txt", "root/b", "root/c"]
    );
}

#[test]
fn walk_is_deterministic_under_listing_order() {
    let tree = sample_tree();
    let reversed = match &tree {
        Node::Dir(children) => {
            let mut c = children.clone();
            c.reverse();
            Node::Dir(c)
        }
        _ => unreachable!(),
    };
    let a = run_walk(b"root", &tree, Vec::new(), false).unwrap();
    let b = run_walk(b"root", &reversed, Vec::new(), false).unwrap();
    assert_eq!(rel_strings(&a), rel_strings(&b));
}

fn encode_all(items: &[DirWalkItem], tree: &Node, root_name: &[u8]) -> (Vec<u8>, Vec<u8>) {
    let main = root_name.to_vec();
    let mut archive = Vec::new();
    let mut digests = Vec::new();
    for item in items {
        let is_dir = item.typ.is_directory_member();
        let name = tar_name_for(&main, &item.relpath, is_dir);
        if is_dir {
            archive.extend(TarOutput::tar_write_dir(&name));
        } else {
            let content = match lookup(root_name, tree, &item.relpath) {
                Node::File(c) => c.clone(),
                _ => panic!("not a file"),
            };
            let (bytes, line) =
                TarOutput::tar_write_file(&name, item.size.unwrap(), &content, true).unwrap();
            archive.extend(bytes);
            digests.extend(line.unwrap());
        }
    }
    archive.extend(TarOutput::tar_end_marker());
    (archive, digests)
}

#[test]
fn pipeline_twice_is_byte_identical() {
    let tree = sample_tree();
    let items1 = run_walk(b"root", &tree, Vec::new(), false).unwrap();
    let (ar1, dg1) = encode_all(&items1, &tree, b"root");
    let items2 = run_walk(b"root", &tree, Vec::new(), false).unwrap();
    let (ar2, dg2) = encode_all(&items2, &tree, b"root");
    assert_eq!(ar1, ar2);
    assert_eq!(dg1, dg2);
}

#[test]
fn excluded_subtree_never_appears() {
    let pat = parse_regex("^[.]git$").unwrap();
    let items = run_walk(b"root", &sample_tree(), vec![pat], false).unwrap();
    let rels = rel_strings(&items);
    assert!(rels.iter().all(|r| !r.contains(".git")));
    assert_eq!(
        rels,
        vec!["root", "root/a", "root/a/y.txt", "root/a/z.txt", "root/b", "root/c"]
    );
    // and the produced archive holds no member whose name starts with .git
    let tree = sample_tree();
    let (archive, _) = encode_all(&items, &tree, b"root");
    let mut ar = tar::Archive::new(&archive[..]);
    for entry in ar.entries().unwrap() {
        let entry = entry.unwrap();
        let path = entry.path_bytes().to_vec();
        assert!(!path.windows(4).any(|w| w == b".git"));
    }
}

#[test]
fn empty_directory_policy() {
    let tree = Node::Dir(vec![(
        b"only".to_vec(),
        Node::Dir(vec![(b".hidden".to_vec(), Node::File(b"h".to_vec()))]),
    )]);
    let pat = || parse_regex("^[.].*$").unwrap();
    // pruning on: the directory holding only excluded files is omitted
    let pruned = run_walk(b"root", &tree, vec![pat()], true).unwrap();
    assert_eq!(rel_strings(&pruned), vec!["root"]);
    // the check is shallow: a directory whose only child later prunes to
    // empty is itself still emitted
    let nested = Node::Dir(vec![(
        b"outer".to_vec(),
        Node::Dir(vec![(b"inner".to_vec(), Node::Dir(vec![]))]),
    )]);
    let shallow = run_walk(b"root", &nested, vec![pat()], true).unwrap();
    assert_eq!(rel_strings(&shallow), vec!["root", "root/outer"]);
    let tree2 = Node::Dir(vec![(b"only".to_vec(), Node::Dir(vec![]))]);
    let pruned2 = run_walk(b"root", &tree2, vec![pat()], true).unwrap();
    assert_eq!(rel_strings(&pruned2), vec!["root"]);
    // pruning off: it appears, with no children
    let kept2 = run_walk(b"root", &tree2, vec![pat()], false).unwrap();
    assert_eq!(rel_strings(&kept2), vec!["root", "root/only"]);
}

#[test]
fn symlink_to_file_is_archived_as_plain_file() {
    let mut walker = DirWalkIterator::new(
        b"/base".to_vec(),
        vec![vec![b"root".to_vec()], ],
        Vec::new(),
        false,
        false,
    );
    let rel = vec![b"root".to_vec(), b"link".to_vec()];
    let item = walker
        .step(
            rel,
            FsNode::Symlink {
                target: Some(SymlinkTarget {
                    path: b"/elsewhere/real.txt".to_vec(),
                    size: 5,
                    node: ResolvedNode::File,
                }),
            },
        )
        .unwrap()
        .unwrap();
    assert!(matches!(&item.typ, DirWalkType::SymlinkToFile(p) if p == b"/elsewhere/real.txt"));
    assert_eq!(item.size, Some(5));
    // encoded as a regular file entry named after the link
    let name = tar_name_for(&b"root".to_vec(), &item.relpath, false);
    assert_eq!(name, b"root/link".to_vec());
    let (bytes, _) = TarOutput::tar_write_file(&name, 5, &b"hello".to_vec(), false).unwrap();
    let mut ar = tar::Archive::new(&bytes[..]);
    let mut entries = ar.entries().unwrap();
    let mut entry = entries.next().unwrap().unwrap();
    assert!(entry.header().entry_type().is_file());
    assert_eq!(entry.path_bytes().to_vec(), b"root/link".to_vec());
    let mut content = Vec::new();
    std::io::Read::read_to_end(&mut entry, &mut content).unwrap();
    assert_eq!(content, b"hello".to_vec());
}

#[test]
fn symlink_to_directory_is_descended_into() {
    let mut walker = DirWalkIterator::new(
        b"/base".to_vec(),
        Vec::new(),
        Vec::new(),
        false,
        false,
    );
    let rel = vec![b"root".to_vec(), b"link".to_vec()];
    let item = walker
        .step(
            rel,
            FsNode::Symlink {
                target: Some(SymlinkTarget {
                    path: b"/elsewhere/realdir".to_vec(),
                    size: 4096,
                    node: ResolvedNode::Dir {
                        children: vec![b"f.txt".to_vec(), b"a.txt".to_vec()],
                    },
                }),
            },
        )
        .unwrap()
        .unwrap();
    assert!(matches!(&item.typ, DirWalkType::SymlinkToDirectory(p) if p == b"/elsewhere/realdir"));
    assert_eq!(item.relpath, vec![b"root".to_vec(), b"link".to_vec()]);
    // the resolved directory's children are traversed like a real
    // directory's, in ascending order
    assert_eq!(
        walker.next_path().unwrap(),
        vec![b"root".to_vec(), b"link".to_vec(), b"a.txt".to_vec()]
    );
    assert_eq!(
        walker.next_path().unwrap(),
        vec![b"root".to_vec(), b"link".to_vec(), b"f.txt".to_vec()]
    );
    assert!(walker.next_path().is_none());
}

#[test]
fn symlink_to_directory_of_only_excluded_children_is_pruned() {
    let pat = parse_regex("^[.].*$").unwrap();
    let mut walker = DirWalkIterator::new(
        b"/base".to_vec(),
        Vec::new(),
        vec![pat],
        true,
        false,
    );
    let rel = vec![b"root".to_vec(), b"link".to_vec()];
    let r = walker
        .step(
            rel,
            FsNode::Symlink {
                target: Some(SymlinkTarget {
                    path: b"/elsewhere/realdir".to_vec(),
                    size: 4096,
                    node: ResolvedNode::Dir { children: vec![b".hidden".to_vec()] },
                }),
            },
        )
        .unwrap();
    assert!(r.is_none());
    assert!(walker.next_path().is_none());
}

#[test]
fn symlink_aborts_when_asked() {
    let mut walker = DirWalkIterator::new(
        b"/base".to_vec(),
        vec![vec![b"root".to_vec()]],
        Vec::new(),
        false,
        true,
    );
    let rel = vec![b"root".to_vec(), b"link".to_vec()];
    let r = walker.step(rel, FsNode::Symlink { target: None });
    assert!(matches!(r, Err(TarError::SymlinkEncountered)));
}

#[test]
fn unsupported_object_is_fatal() {
    let mut walker =
        DirWalkIterator::new(b"/base".to_vec(), vec![vec![b"root".to_vec()]], Vec::new(), false, false);
    let r = walker.step(vec![b"root".to_vec()], FsNode::Other);
    assert!(matches!(r, Err(TarError::Traversal)));
}

#[test]
fn undecodable_basename_is_fatal() {
    let mut walker =
        DirWalkIterator::new(b"/base".to_vec(), vec![vec![b"root".to_vec()]], Vec::new(), false, false);
    let r = walker.step(
        vec![b"root".to_vec()],
        FsNode::Dir { children: vec![vec![0xff, 0xfe]] },
    );
    assert!(matches!(r, Err(TarError::Traversal)));
}

#[test]
fn is_allowed_name_matches_anywhere() {
    let pats = vec![parse_regex("git").unwrap()];
    assert_eq!(is_allowed_name(&b"digits".to_vec(), &pats).unwrap(), false);
    assert_eq!(is_allowed_name(&b"src".to_vec(), &pats).unwrap(), true);
    let none: Vec<Pattern> = Vec::new();
    assert_eq!(is_allowed_name(&b"anything".to_vec(), &none).unwrap(), true);
}

#[test]
fn invalid_pattern_is_configuration_error() {
    assert!(matches!(parse_regex("["), Err(TarError::Configuration)));
}

#[test]
fn main_dir_name_validation() {
    assert_eq!(validate_main_dir_name(&None).unwrap(), None);
    assert_eq!(
        validate_main_dir_name(&Some("renamed".to_string())).unwrap(),
        Some(b"renamed".to_vec())
    );
    assert!(matches!(
        validate_main_dir_name(&Some("/abs".to_string())),
        Err(TarError::Configuration)
    ));
    assert!(matches!(
        validate_main_dir_name(&Some("trail/".to_string())),
        Err(TarError::Configuration)
    ));
}

#[test]
fn both_outputs_on_stdout_is_rejected() {
    assert!(validate_output_targets(&"-".to_string(), &None).is_ok());
    assert!(validate_output_targets(&"-".to_string(), &Some("h.txt".to_string())).is_ok());
    assert!(validate_output_targets(&"out.tar".to_string(), &Some("-".to_string())).is_ok());
    assert!(matches!(
        validate_output_targets(&"-".to_string(), &Some("-".to_string())),
        Err(TarError::Configuration)
    ));
}

#[test]
fn tar_name_uses_rename_and_skips_first_component() {
    let rel = vec![b"orig".to_vec(), b"sub".to_vec(), b"f.txt".to_vec()];
    let name = tar_name_for(&b"renamed".to_vec(), &rel, false);
    assert_eq!(name, b"renamed/sub/f.txt".to_vec());
    let dname = tar_name_for(&b"renamed".to_vec(), &vec![b"orig".to_vec()], true);
    assert_eq!(dname, b"renamed/".to_vec());
}
