use vstd::prelude::*;
use crate::text::str_eq;

verus! {

/// The shape of an import statement's tree of paths.
pub enum UseTreeNode {
    /// `segment::rest`
    Path(String, Box<UseTreeNode>),
    /// A name bound as it is (`name`, or `self` for the enclosing segment).
    Name(String),
    /// `name as alias`
    Rename(String, String),
    /// `*`
    Glob,
    /// `{a, b, ...}`
    Group(Box<UseTreeList>),
}

/// The members of a `{...}` group, in order.
pub enum UseTreeList {
    Nil,
    Cons(Box<UseTreeNode>, Box<UseTreeList>),
}

pub open spec fn self_word() -> Seq<char> {
    seq!['s', 'e', 'l', 'f']
}

/// The names a tree binds explicitly; `parent` is the segment that `self` stands for.
pub open spec fn tree_names(t: UseTreeNode, parent: Seq<char>) -> Seq<Seq<char>>
    decreases t,
{
    match t {
        UseTreeNode::Path(seg, rest) => tree_names(*rest, seg@),
        UseTreeNode::Name(n) => if n@ == self_word() {
            seq![parent]
        } else {
            seq![n@]
        },
        UseTreeNode::Rename(_, alias) => seq![alias@],
        UseTreeNode::Glob => Seq::empty(),
        UseTreeNode::Group(list) => list_names(*list, parent),
    }
}

pub open spec fn list_names(l: UseTreeList, parent: Seq<char>) -> Seq<Seq<char>>
    decreases l,
{
    match l {
        UseTreeList::Nil => Seq::empty(),
        UseTreeList::Cons(head, tail) => tree_names(*head, parent) + list_names(*tail, parent),
    }
}

/// The first segment of the imported path, when the tree starts with one.
pub open spec fn root_name(t: UseTreeNode) -> Option<Seq<char>> {
    match t {
        UseTreeNode::Path(seg, _) => Some(seg@),
        UseTreeNode::Name(n) => Some(n@),
        UseTreeNode::Rename(n, _) => Some(n@),
        _ => None,
    }
}

/// The names an import statement introduces: those it binds explicitly, or else
/// its root namespace.
pub open spec fn introduced(t: UseTreeNode) -> Seq<Seq<char>> {
    let bound = tree_names(t, Seq::empty());
    if bound.len() > 0 {
        bound
    } else {
        match root_name(t) {
            Some(r) => seq![r],
            None => Seq::empty(),
        }
    }
}

fn collect_tree(t: &UseTreeNode, parent: &String, out: &mut Vec<String>)
    ensures
        final(out).deep_view() == old(out).deep_view() + tree_names(*t, parent@),
    decreases t,
{
    match t {
        UseTreeNode::Path(seg, rest) => {
            collect_tree(rest, seg, out);
        },
        UseTreeNode::Name(n) => {
            let is_self = str_eq(n.as_str(), "self");
            proof {
                reveal_strlit("self");
                assert(("self")@ =~= self_word());
            }
            if is_self {
                proof {
                    assert(n@ =~= self_word());
                }
                out.push(parent.clone());
            } else {
                out.push(n.clone());
            }
            proof {
                assert(out.deep_view() =~= old(out).deep_view() + tree_names(*t, parent@));
            }
        },
        UseTreeNode::Rename(_, alias) => {
            out.push(alias.clone());
            proof {
                assert(out.deep_view() =~= old(out).deep_view() + tree_names(*t, parent@));
            }
        },
        UseTreeNode::Glob => {
            proof {
                assert(out.deep_view() =~= old(out).deep_view() + tree_names(*t, parent@));
            }
        },
        UseTreeNode::Group(list) => {
            collect_list(list, parent, out);
        },
    }
}

fn collect_list(l: &UseTreeList, parent: &String, out: &mut Vec<String>)
    ensures
        final(out).deep_view() == old(out).deep_view() + list_names(*l, parent@),
    decreases l,
{
    match l {
        UseTreeList::Nil => {
            proof {
                assert(out.deep_view() =~= old(out).deep_view() + list_names(*l, parent@));
            }
        },
        UseTreeList::Cons(head, tail) => {
            let ghost before = out.deep_view();
            collect_tree(head, parent, out);
            collect_list(tail, parent, out);
            proof {
                assert(out.deep_view() =~= before + list_names(*l, parent@));
            }
        },
    }
}

/// The names that an import statement with tree `t` introduces.
pub fn introduced_names(t: &UseTreeNode) -> (r: Vec<String>)
    ensures
        r.deep_view() == introduced(*t),
{
    let mut out: Vec<String> = Vec::new();
    let empty = String::new();
    collect_tree(t, &empty, &mut out);
    proof {
        assert(out.deep_view() =~= tree_names(*t, Seq::empty()));
    }
    if out.len() == 0 {
        match t {
            UseTreeNode::Path(seg, _) => out.push(seg.clone()),
            UseTreeNode::Name(n) => out.push(n.clone()),
            UseTreeNode::Rename(n, _) => out.push(n.clone()),
            _ => {},
        }
        proof {
            assert(out.deep_view() =~= introduced(*t));
        }
    }
    out
}

} // verus!
