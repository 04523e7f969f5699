use vstd::prelude::*;

verus! {

broadcast use vstd::std_specs::vec::group_vec_axioms;

/// A loosely-typed document node: the shape that rule decoding works on.
/// Scalars, sequences and mappings cover everything the document format
/// can carry; mapping entries keep their document order.
#[derive(Debug, PartialEq)]
pub enum Node {
    Null,
    Bool(bool),
    Int(i64),
    Str(String),
    List(Vec<Node>),
    Mapping(Vec<(String, Node)>),
}

/// The mathematical shape of a document node.
#[verifier::ext_equal]
pub enum NodeV {
    Null,
    Bool(bool),
    Int(int),
    Str(Seq<char>),
    List(Seq<NodeV>),
    Mapping(Seq<(Seq<char>, NodeV)>),
}

/// The mathematical value of a document node.
pub open spec fn node_view(n: Node) -> NodeV
    decreases n,
{
    match n {
        Node::Null => NodeV::Null,
        Node::Bool(b) => NodeV::Bool(b),
        Node::Int(i) => NodeV::Int(i as int),
        Node::Str(s) => NodeV::Str(s@),
        Node::List(items) => NodeV::List(node_list_view(items@)),
        Node::Mapping(entries) => NodeV::Mapping(entry_list_view(entries@)),
    }
}

pub open spec fn node_list_view(s: Seq<Node>) -> Seq<NodeV>
    decreases s,
{
    Seq::new(s.len(), |i: int| if 0 <= i < s.len() { node_view(s[i]) } else { NodeV::Null })
}

pub open spec fn entry_list_view(s: Seq<(String, Node)>) -> Seq<(Seq<char>, NodeV)>
    decreases s,
{
    Seq::new(
        s.len(),
        |i: int|
            if 0 <= i < s.len() {
                (s[i].0@, node_view(s[i].1))
            } else {
                (Seq::<char>::empty(), NodeV::Null)
            },
    )
}

/// Index of the first entry whose key is `key`, or -1 when no entry has it.
pub open spec fn key_index(es: Seq<(Seq<char>, NodeV)>, key: Seq<char>) -> int
    decreases es.len(),
{
    if es.len() == 0 {
        -1
    } else if es[0].0 == key {
        0
    } else {
        let r = key_index(es.drop_first(), key);
        if r < 0 {
            -1
        } else {
            1 + r
        }
    }
}

/// The value stored under `key`, at the first matching entry.
pub open spec fn map_get(es: Seq<(Seq<char>, NodeV)>, key: Seq<char>) -> Option<NodeV> {
    let i = key_index(es, key);
    if i < 0 {
        None
    } else {
        Some(es[i].1)
    }
}

pub proof fn lemma_key_index(es: Seq<(Seq<char>, NodeV)>, key: Seq<char>)
    ensures
        key_index(es, key) >= 0 ==> {
            &&& key_index(es, key) < es.len()
            &&& es[key_index(es, key)].0 == key
            &&& forall|j: int| 0 <= j < key_index(es, key) ==> es[j].0 != key
        },
        key_index(es, key) < 0 ==> forall|j: int| 0 <= j < es.len() ==> es[j].0 != key,
    decreases es.len(),
{
    if es.len() > 0 && es[0].0 != key {
        lemma_key_index(es.drop_first(), key);
        assert forall|j: int| 1 <= j < es.len() implies es.drop_first()[j - 1] == es[j] by {}
    }
}

/// Membership of a key in a fixed list of field names.
pub open spec fn key_in(k: Seq<char>, allowed: Seq<Seq<char>>) -> bool {
    exists|j: int| 0 <= j < allowed.len() && allowed[j] == k
}

/// The first mapping key outside the `allowed` schema, if any.
pub open spec fn first_unknown(
    es: Seq<(Seq<char>, NodeV)>,
    allowed: Seq<Seq<char>>,
) -> Option<Seq<char>>
    decreases es.len(),
{
    if es.len() == 0 {
        None
    } else if !key_in(es[0].0, allowed) {
        Some(es[0].0)
    } else {
        first_unknown(es.drop_first(), allowed)
    }
}

pub proof fn lemma_first_unknown_skip(
    es: Seq<(Seq<char>, NodeV)>,
    allowed: Seq<Seq<char>>,
    i: int,
)
    requires
        0 <= i < es.len(),
        key_in(es[i].0, allowed),
    ensures
        first_unknown(es.skip(i), allowed) == first_unknown(es.skip(i + 1), allowed),
{
    assert(es.skip(i).len() > 0);
    assert(es.skip(i)[0] == es[i]);
    assert(es.skip(i).drop_first() =~= es.skip(i + 1));
}

/// Character-by-character string comparison, proved against the views.
pub fn str_eq(a: &str, b: &str) -> (r: bool)
    ensures
        r == (a@ == b@),
{
    let n = a.unicode_len();
    let m = b.unicode_len();
    if n != m {
        proof {
            assert(a@ != b@);
        }
        return false;
    }
    let mut i: usize = 0;
    while i < n
        invariant
            n == a@.len(),
            n == b@.len(),
            0 <= i <= n,
            forall|j: int| 0 <= j < i ==> a@[j] == b@[j],
        decreases n - i,
    {
        if a.get_char(i) != b.get_char(i) {
            proof {
                assert(a@[i as int] != b@[i as int]);
            }
            return false;
        }
        i += 1;
    }
    proof {
        assert(a@ =~= b@);
    }
    true
}

/// Index of the first entry of `entries` whose key equals `key`.
pub fn find_key(entries: &Vec<(String, Node)>, key: &str) -> (r: Option<usize>)
    ensures
        match r {
            Some(i) => i < entries@.len() && key_index(entry_list_view(entries@), key@) == i as int,
            None => key_index(entry_list_view(entries@), key@) < 0,
        },
{
    let ghost ev = entry_list_view(entries@);
    let mut i: usize = 0;
    while i < entries.len()
        invariant
            ev == entry_list_view(entries@),
            0 <= i <= entries@.len(),
            ev.len() == entries@.len(),
            forall|j: int| 0 <= j < i ==> ev[j].0 != key@,
        decreases entries@.len() - i,
    {
        if str_eq(entries[i].0.as_str(), key) {
            proof {
                assert(ev[i as int].0 == key@);
                lemma_key_index(ev, key@);
                let ki = key_index(ev, key@);
                if ki < 0 {
                } else {
                    if ki < i as int {
                        assert(ev[ki].0 != key@);
                    }
                    if ki > i as int {
                        assert(ev[i as int].0 != key@);
                    }
                }
            }
            return Some(i);
        }
        i += 1;
    }
    proof {
        lemma_key_index(ev, key@);
        if key_index(ev, key@) >= 0 {
            assert(ev[key_index(ev, key@)].0 == key@);
        }
    }
    None
}

/// A copy of a node, equal to the original in value.
#[verifier::loop_isolation(false)]
pub fn clone_node(n: &Node) -> (r: Node)
    ensures
        node_view(r) == node_view(*n),
    decreases *n,
{
    match n {
        Node::Null => Node::Null,
        Node::Bool(b) => Node::Bool(*b),
        Node::Int(i) => Node::Int(*i),
        Node::Str(s) => Node::Str(s.clone()),
        Node::List(items) => {
            let mut out: Vec<Node> = Vec::new();
            let mut i: usize = 0;
            while i < items.len()
                invariant
                    0 <= i <= items@.len(),
                    out@.len() == i,
                    forall|j: int| 0 <= j < i ==> node_view(out@[j]) == node_view(items@[j]),
                decreases items@.len() - i,
            {
                proof {
                    assert(decreases_to!(*n => items@[i as int]));
                }
                out.push(clone_node(&items[i]));
                i += 1;
            }
            proof {
                assert(node_list_view(out@) =~= node_list_view(items@));
            }
            Node::List(out)
        },
        Node::Mapping(entries) => {
            let mut out: Vec<(String, Node)> = Vec::new();
            let mut i: usize = 0;
            while i < entries.len()
                invariant
                    0 <= i <= entries@.len(),
                    out@.len() == i,
                    forall|j: int| 0 <= j < i ==> out@[j].0@ == entries@[j].0@ && node_view(
                        out@[j].1,
                    ) == node_view(entries@[j].1),
                decreases entries@.len() - i,
            {
                proof {
                    assert(decreases_to!(*n => entries@[i as int].1));
                }
                let key = entries[i].0.clone();
                let val = clone_node(&entries[i].1);
                out.push((key, val));
                i += 1;
            }
            proof {
                assert(entry_list_view(out@) =~= entry_list_view(entries@));
            }
            Node::Mapping(out)
        },
    }
}

} // verus!
