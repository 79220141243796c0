//! A movable-tree document kept by Loro. Nodes carry a stable external id
//! (`uid`) and a JSON payload (`data`) in their metadata map; the document
//! keeps the index from external ids to Loro's tree ids, rebuilt from the
//! metadata after every import. Payloads, patches and map values travel as
//! JSON text.

use vstd::prelude::*;
use vstd::hash_map::StringHashMap;
use loro::{
    ExportMode, LoroDoc, LoroEncodeError, LoroError, LoroTree, LoroValue,
    TreeID, TreeParentId, ValueOrContainer, VersionVector,
};
use crate::text::concat_str;

verus! {

broadcast use vstd::string::group_string_axioms;

#[verifier::external_type_specification]
#[verifier::external_body]
pub struct ExLoroDoc(LoroDoc);

#[verifier::external_type_specification]
#[verifier::external_body]
pub struct ExLoroTree(LoroTree);

#[verifier::external_type_specification]
#[verifier::external_body]
pub struct ExTreeID(TreeID);

#[verifier::external_type_specification]
#[verifier::external_body]
pub struct ExLoroError(LoroError);

#[verifier::external_type_specification]
#[verifier::external_body]
pub struct ExLoroEncodeError(LoroEncodeError);

// ---------------------------------------------------------------------------
// JSON payloads
// ---------------------------------------------------------------------------

/// What `serde_json` reads from a text: the error's message when the text
/// is not JSON; otherwise the members of an object (each value as compact
/// JSON text, in the order of the object's map), or `None` for any other
/// JSON value.
pub uninterp spec fn json_entries_of(text: Seq<char>) -> Result<
    Option<Seq<(Seq<char>, Seq<char>)>>,
    Seq<char>,
>;

/// The compact JSON text of the object whose members are `entries` (a later
/// member replaces an earlier one with the same key), or the message of the
/// error met while reading a member's value text.
pub uninterp spec fn json_object_text_of(entries: Seq<(Seq<char>, Seq<char>)>) -> Result<
    Seq<char>,
    Seq<char>,
>;

/// Member pairs by their views.
pub open spec fn pair_views(v: Seq<(String, String)>) -> Seq<(Seq<char>, Seq<char>)> {
    v.map_values(|e: (String, String)| (e.0@, e.1@))
}

/// `serde_json::from_str::<serde_json::Value>`: parses `text`. The result
/// is the members of a JSON object, each value written back as compact JSON
/// text (`Value`'s `Display`), `None` for JSON that is not an object, or the
/// parse error's message. Claimed: the result is `json_entries_of(text)`.
#[verifier::external_body]
fn json_object_entries(text: &str) -> (r: Result<Option<Vec<(String, String)>>, String>)
    ensures
        match (r, json_entries_of(text@)) {
            (Ok(None), Ok(None)) => true,
            (Ok(Some(v)), Ok(Some(s))) => pair_views(v@) == s,
            (Err(e), Err(m)) => e@ == m,
            _ => false,
        },
{
    match serde_json::from_str::<serde_json::Value>(text) {
        Ok(serde_json::Value::Object(m)) => Ok(Some(m.into_iter().map(|(k, v)| (k, v.to_string())).collect())),
        Ok(_) => Ok(None),
        Err(e) => Err(e.to_string()),
    }
}

/// `serde_json::Map` and `serde_json::to_string`: reads each member's value
/// text with `serde_json::from_str`, inserts the members in order into a map
/// and writes the object as compact JSON. Claimed: the result is
/// `json_object_text_of(entries)`.
#[verifier::external_body]
fn json_object_text(entries: &Vec<(String, String)>) -> (r: Result<String, String>)
    ensures
        match (r, json_object_text_of(pair_views(entries@))) {
            (Ok(t), Ok(s)) => t@ == s,
            (Err(e), Err(m)) => e@ == m,
            _ => false,
        },
{
    let mut m = serde_json::Map::new();
    for (k, v) in entries.iter() {
        match serde_json::from_str::<serde_json::Value>(v) {
            Ok(x) => { m.insert(k.clone(), x); }
            Err(e) => return Err(e.to_string()),
        }
    }
    serde_json::to_string(&serde_json::Value::Object(m)).map_err(|e| e.to_string())
}

/// The object that the members `s` describe, a later member winning.
pub open spec fn entries_map(s: Seq<(Seq<char>, Seq<char>)>) -> Map<Seq<char>, Seq<char>>
    decreases s.len(),
{
    if s.len() == 0 {
        Map::empty()
    } else {
        entries_map(s.drop_last()).insert(s.last().0, s.last().1)
    }
}

/// The members of `s` whose key is not `k`, in order.
pub open spec fn without_key(s: Seq<(Seq<char>, Seq<char>)>, k: Seq<char>) -> Seq<
    (Seq<char>, Seq<char>),
>
    decreases s.len(),
{
    if s.len() == 0 {
        s
    } else if s.last().0 == k {
        without_key(s.drop_last(), k)
    } else {
        without_key(s.drop_last(), k).push(s.last())
    }
}

/// The members of `t` overwritten by those of `p`: each member of `p` in
/// turn drops the member of the same key and is appended.
pub open spec fn merge_entries(t: Seq<(Seq<char>, Seq<char>)>, p: Seq<(Seq<char>, Seq<char>)>) -> Seq<
    (Seq<char>, Seq<char>),
>
    decreases p.len(),
{
    if p.len() == 0 {
        t
    } else {
        without_key(merge_entries(t, p.drop_last()), p.last().0).push(p.last())
    }
}

/// The payload after `patch` is merged into the stored payload `cur` (empty
/// when the node has none): the members of two objects are merged, the
/// patch's winning; any other pair gives the patch itself. The stored text
/// is read first, the patch only when the stored payload is an object.
pub open spec fn patched_text(cur: Seq<char>, patch: Seq<char>) -> Result<Seq<char>, Seq<char>> {
    if cur.len() == 0 {
        Ok(patch)
    } else {
        match json_entries_of(cur) {
            Err(m) => Err(m),
            Ok(None) => Ok(patch),
            Ok(Some(te)) => match json_entries_of(patch) {
                Err(m) => Err(m),
                Ok(None) => Ok(patch),
                Ok(Some(pe)) => json_object_text_of(merge_entries(te, pe)),
            },
        }
    }
}

proof fn lemma_without_key_map(s: Seq<(Seq<char>, Seq<char>)>, k: Seq<char>)
    ensures
        entries_map(without_key(s, k)) == entries_map(s).remove(k),
    decreases s.len(),
{
    if s.len() > 0 {
        lemma_without_key_map(s.drop_last(), k);
        if s.last().0 == k {
            assert(entries_map(s).remove(k) =~= entries_map(s.drop_last()).remove(k));
        } else {
            let w = without_key(s.drop_last(), k);
            assert(w.push(s.last()).drop_last() =~= w);
            assert(entries_map(w.push(s.last())) == entries_map(w).insert(s.last().0, s.last().1));
            assert(entries_map(s).remove(k) =~= entries_map(s.drop_last()).remove(k).insert(
                s.last().0,
                s.last().1,
            ));
        }
    }
}

/// Merging a patch object into a payload object keeps every key of either,
/// and the patch's value wins on a key that both hold.
pub proof fn merge_entries_patch_wins(t: Seq<(Seq<char>, Seq<char>)>, p: Seq<(Seq<char>, Seq<char>)>)
    ensures
        entries_map(merge_entries(t, p)) == entries_map(t).union_prefer_right(entries_map(p)),
    decreases p.len(),
{
    if p.len() == 0 {
        assert(entries_map(t).union_prefer_right(Map::empty()) =~= entries_map(t));
    } else {
        let m = merge_entries(t, p.drop_last());
        merge_entries_patch_wins(t, p.drop_last());
        lemma_without_key_map(m, p.last().0);
        let w = without_key(m, p.last().0);
        assert(w.push(p.last()).drop_last() =~= w);
        assert(entries_map(merge_entries(t, p)) == entries_map(w).insert(p.last().0, p.last().1));
        assert(entries_map(merge_entries(t, p)) =~= entries_map(t).union_prefer_right(
            entries_map(p),
        ));
    }
}

fn drop_key(s: Vec<(String, String)>, k: &str) -> (r: Vec<(String, String)>)
    ensures
        pair_views(r@) == without_key(pair_views(s@), k@),
{
    let mut r: Vec<(String, String)> = Vec::new();
    let mut i: usize = 0;
    let ghost sv = pair_views(s@);
    proof {
        assert(sv.take(0) =~= Seq::<(Seq<char>, Seq<char>)>::empty());
        assert(pair_views(r@) =~= Seq::<(Seq<char>, Seq<char>)>::empty());
    }
    while i < s.len()
        invariant
            i <= s.len(),
            sv == pair_views(s@),
            pair_views(r@) == without_key(sv.take(i as int), k@),
        decreases s.len() - i,
    {
        proof {
            assert(sv.take(i as int + 1).drop_last() =~= sv.take(i as int));
            assert(sv[i as int] == (s@[i as int].0@, s@[i as int].1@));
        }
        let same = crate::text::str_eq(s[i].0.as_str(), k);
        if !same {
            let e = (s[i].0.clone(), s[i].1.clone());
            let ghost before = r@;
            r.push(e);
            proof {
                assert(pair_views(r@) =~= pair_views(before).push(sv[i as int]));
            }
        }
        i = i + 1;
    }
    proof {
        assert(sv.take(s.len() as int) =~= sv);
    }
    r
}

/// The members of `t` with those of `p` merged in (see `merge_entries`).
pub fn merge_members(t: Vec<(String, String)>, p: &Vec<(String, String)>) -> (r: Vec<(String, String)>)
    ensures
        pair_views(r@) == merge_entries(pair_views(t@), pair_views(p@)),
{
    let mut r = t;
    let ghost tv = pair_views(r@);
    let ghost pv = pair_views(p@);
    let mut i: usize = 0;
    proof {
        assert(pv.take(0) =~= Seq::<(Seq<char>, Seq<char>)>::empty());
    }
    while i < p.len()
        invariant
            i <= p.len(),
            pv == pair_views(p@),
            pair_views(r@) == merge_entries(tv, pv.take(i as int)),
        decreases p.len() - i,
    {
        proof {
            assert(pv.take(i as int + 1).drop_last() =~= pv.take(i as int));
            assert(pv[i as int] == (p@[i as int].0@, p@[i as int].1@));
        }
        let mut d = drop_key(r, p[i].0.as_str());
        let ghost before = d@;
        d.push((p[i].0.clone(), p[i].1.clone()));
        proof {
            assert(pair_views(d@) =~= pair_views(before).push(pv[i as int]));
        }
        r = d;
        i = i + 1;
    }
    proof {
        assert(pv.take(p.len() as int) =~= pv);
    }
    r
}

/// The payload after merging the JSON text `patch` into the stored JSON
/// text `cur` (see `patched_text`); the error is the JSON reader's message.
pub fn patch_data(cur: &str, patch: &str) -> (r: Result<String, String>)
    ensures
        match (r, patched_text(cur@, patch@)) {
            (Ok(t), Ok(s)) => t@ == s,
            (Err(e), Err(m)) => e@ == m,
            _ => false,
        },
{
    if cur.unicode_len() == 0 {
        return Ok(patch.to_string());
    }
    match json_object_entries(cur) {
        Err(m) => Err(m),
        Ok(None) => Ok(patch.to_string()),
        Ok(Some(te)) => match json_object_entries(patch) {
            Err(m) => Err(m),
            Ok(None) => Ok(patch.to_string()),
            Ok(Some(pe)) => {
                let merged = merge_members(te, &pe);
                json_object_text(&merged)
            },
        },
    }
}


// ---------------------------------------------------------------------------
// Loro calls
// ---------------------------------------------------------------------------

/// The number of operations in a document's history.
pub uninterp spec fn oplog_len(d: LoroDoc) -> nat;

/// The string members of the metadata maps of the tree named `tree` in a
/// document with an empty history after it imported `bytes`.
pub uninterp spec fn imported_strings(bytes: Seq<u8>, tree: Seq<char>) -> Map<(TreeID, Seq<char>), Seq<char>>;

/// The parents of the tree named `tree` in a document with an empty
/// history after it imported `bytes`.
pub uninterp spec fn imported_parents(bytes: Seq<u8>, tree: Seq<char>) -> Map<TreeID, Option<TreeID>>;

/// The slot texts of the tree named `tree` in a document with an empty
/// history after it imported `bytes`.
pub uninterp spec fn imported_texts(bytes: Seq<u8>, tree: Seq<char>) -> Map<(TreeID, Seq<char>), Seq<char>>;

/// The slot maps of the tree named `tree` in a document with an empty
/// history after it imported `bytes`.
pub uninterp spec fn imported_maps(bytes: Seq<u8>, tree: Seq<char>) -> Map<
    (TreeID, Seq<char>),
    Map<Seq<char>, Option<Seq<char>>>,
>;

/// The foreign slots (see `foreign_slots`) of the tree named `tree` in a
/// document with an empty history after it imported `bytes`.
pub uninterp spec fn imported_foreign(bytes: Seq<u8>, tree: Seq<char>) -> Set<(TreeID, Seq<char>)>;

/// Whether a document can be edited as this library edits it: it is
/// attached (not checked out to an earlier version, so an edit opens a
/// transaction), its trees generate fractional indexes for the order of
/// siblings (Loro's default, which nothing here turns off), and its history
/// is complete (not shallow) with every change block parsable.
pub uninterp spec fn doc_sound(d: LoroDoc) -> bool;

/// Whether `bytes` are a full export (a snapshot, or the updates since the
/// empty version) of a document whose history was sound (see `doc_sound`).
pub uninterp spec fn importable(bytes: Seq<u8>) -> bool;

/// Whether document `d` holds, in every tree, what a document with an
/// empty history holds after importing `bytes`.
pub open spec fn holds_import(d: LoroDoc, bytes: Seq<u8>) -> bool {
    forall|t: Seq<char>|
        #![trigger meta_strings(d, t)]
        #![trigger imported_strings(bytes, t)]
        meta_strings(d, t) == imported_strings(bytes, t) && tree_parents(d, t) == imported_parents(bytes, t)
            && slot_texts(d, t) == imported_texts(bytes, t) && slot_maps(d, t) == imported_maps(bytes, t)
            && foreign_slots(d, t) == imported_foreign(bytes, t)
}

/// Whether the tree named `tree` of `d` is empty: no member, no node, no
/// foreign value, and every slot text and slot map empty.
pub open spec fn empty_tree(d: LoroDoc, tree: Seq<char>) -> bool {
    &&& meta_strings(d, tree) == Map::<(TreeID, Seq<char>), Seq<char>>::empty()
    &&& tree_parents(d, tree) == Map::<TreeID, Option<TreeID>>::empty()
    &&& foreign_slots(d, tree) == Set::<(TreeID, Seq<char>)>::empty()
    &&& forall|t: TreeID, slot: Seq<char>| #[trigger] text_at(slot_texts(d, tree), t, slot) == Seq::<char>::empty()
    &&& forall|t: TreeID, slot: Seq<char>|
        #[trigger] map_at(slot_maps(d, tree), t, slot) == Map::<Seq<char>, Option<Seq<char>>>::empty()
}

/// `LoroDoc::new`: a new empty document (attached, with auto-commit).
/// Claimed: its history is empty, it is sound, and every tree is empty:
/// no member, no node, no slot text or map member.
#[verifier::external_body]
fn loro_doc_new() -> (d: LoroDoc)
    ensures
        oplog_len(d) == 0,
        doc_sound(d),
        forall|tree: Seq<char>| #[trigger] empty_tree(d, tree),
{
    LoroDoc::new()
}

/// `LoroDoc::set_peer_id`: sets the peer id used for new operations.
#[verifier::external_body]
fn loro_set_peer_id(doc: &LoroDoc, peer: u64) -> (r: Result<(), LoroError>) {
    doc.set_peer_id(peer)
}

/// The string members of the metadata maps of the tree named `tree` in a
/// document: the value under `(node, key)` for each member whose value is
/// a string (members holding other values are left out).
pub uninterp spec fn meta_strings(d: LoroDoc, tree: Seq<char>) -> Map<(TreeID, Seq<char>), Seq<char>>;

/// The parent of each node of the tree named `tree` in a document that is
/// not itself deleted: `None` for a root, `Some(p)` under node `p`.
pub uninterp spec fn tree_parents(d: LoroDoc, tree: Seq<char>) -> Map<TreeID, Option<TreeID>>;

/// The text held by the mergeable text container that Loro derives from
/// the metadata map of a node and a key, for every `(node, key)`: the
/// container's id is a function of the pair, so its text exists whether or
/// not the map's slot marks it yet, and is empty until an operation reaches
/// it.
pub uninterp spec fn slot_texts(d: LoroDoc, tree: Seq<char>) -> Map<(TreeID, Seq<char>), Seq<char>>;

/// The members of the mergeable map container that Loro derives from the
/// metadata map of a node and a key, for every `(node, key)` (as for
/// `slot_texts`, a container no operation has reached has no members):
/// `Some` of the text for a string value, `None` for any other value.
pub uninterp spec fn slot_maps(d: LoroDoc, tree: Seq<char>) -> Map<
    (TreeID, Seq<char>),
    Map<Seq<char>, Option<Seq<char>>>,
>;

/// The `(node, key)` members of the metadata maps of the tree named `tree`
/// whose value is neither a string, nor null, nor the marker of the
/// mergeable container that Loro derives from that node and key: such a
/// slot cannot take a mergeable container.
pub uninterp spec fn foreign_slots(d: LoroDoc, tree: Seq<char>) -> Set<(TreeID, Seq<char>)>;

/// Whether the slot `slot` of node `t` can take a mergeable container: it
/// holds no string and no foreign value.
pub open spec fn slot_open(
    members: Map<(TreeID, Seq<char>), Seq<char>>,
    foreign: Set<(TreeID, Seq<char>)>,
    t: TreeID,
    slot: Seq<char>,
) -> bool {
    !members.contains_key((t, slot)) && !foreign.contains((t, slot))
}

/// Whether `x` reaches `a` by going up at most `n` parents.
pub open spec fn reaches_within(parents: Map<TreeID, Option<TreeID>>, x: TreeID, a: TreeID, n: nat) -> bool
    decreases n,
{
    x == a || (n > 0 && parents.contains_key(x) && match parents[x] {
        None => false,
        Some(y) => reaches_within(parents, y, a, (n - 1) as nat),
    })
}

/// Whether `x` is `a` or lies under `a` (Loro refuses to move `a` there).
pub open spec fn under(parents: Map<TreeID, Option<TreeID>>, x: TreeID, a: TreeID) -> bool {
    exists|n: nat| reaches_within(parents, x, a, n)
}

/// Whether node `t` hangs, through live parents, from a root of the tree
/// within `n` steps.
pub open spec fn rooted_within(parents: Map<TreeID, Option<TreeID>>, t: TreeID, n: nat) -> bool
    decreases n,
{
    n > 0 && parents.contains_key(t) && match parents[t] {
        None => true,
        Some(p) => rooted_within(parents, p, (n - 1) as nat),
    }
}

/// Whether node `t` is alive: neither it nor any ancestor is deleted.
pub open spec fn rooted(parents: Map<TreeID, Option<TreeID>>, t: TreeID) -> bool {
    exists|n: nat| rooted_within(parents, t, n)
}

/// A valid root container name (Loro's `check_root_container_name`): not
/// empty, free of `/` and NUL, and outside the mergeable namespace, whose
/// names begin with U+1F91D and `:`.
pub open spec fn plain_root_name(s: Seq<char>) -> bool {
    &&& s.len() > 0
    &&& !(s.len() >= 2 && s[0] == '\u{1F91D}' && s[1] == ':')
    &&& forall|i: int| 0 <= i < s.len() ==> s[i] != '/' && s[i] != '\0'
}

/// `LoroDoc::get_tree`: the root tree container of the given name. For a
/// mergeable root name that does not exist yet it panics, so the name must
/// be a valid plain root name, for which the container always exists. The
/// handle refers to the document's state, which Verus does not see, so no
/// clause describes it.
#[verifier::external_body]
fn loro_get_tree(doc: &LoroDoc, name: &str) -> (t: LoroTree)
    requires
        plain_root_name(name@),
{
    doc.get_tree(name)
}

/// `LoroTree::enable_fractional_index`: keeps siblings ordered.
#[verifier::external_body]
fn loro_enable_fractional_index(tree: &LoroTree, jitter: u8) {
    tree.enable_fractional_index(jitter)
}

/// `LoroTree::create` on the tree `tree_name` of `doc`: a new node under
/// `parent` (a root for `None`); Loro checks only that the parent node
/// exists. Claimed: on success the new node, which was nowhere in the tree
/// before (no node had it as parent), has `parent` as its parent, no other
/// node's parent changes, and no member, slot or foreign value changes (a
/// new node's metadata map is empty); the call succeeds on a sound document
/// when the parent is a root or a node that is not itself deleted.
#[verifier::external_body]
fn loro_create(doc: &mut LoroDoc, tree_name: &str, parent: Option<TreeID>) -> (r: Result<TreeID, LoroError>)
    requires
        plain_root_name(tree_name@),
    ensures
        r matches Ok(t) ==> !tree_parents(*old(doc), tree_name@).contains_key(t) && tree_parents(
            *final(doc),
            tree_name@,
        ) == tree_parents(*old(doc), tree_name@).insert(t, parent),
        r matches Ok(t) ==> forall|x: TreeID|
            tree_parents(*old(doc), tree_name@).contains_key(x) ==> tree_parents(*old(doc), tree_name@)[x]
                != Some(t),
        r is Ok ==> meta_strings(*final(doc), tree_name@) == meta_strings(*old(doc), tree_name@),
        r is Ok ==> slot_texts(*final(doc), tree_name@) == slot_texts(*old(doc), tree_name@),
        r is Ok ==> slot_maps(*final(doc), tree_name@) == slot_maps(*old(doc), tree_name@),
        r is Ok ==> foreign_slots(*final(doc), tree_name@) == foreign_slots(*old(doc), tree_name@),
        doc_sound(*final(doc)) == doc_sound(*old(doc)),
        doc_sound(*old(doc)) && (parent is None || tree_parents(*old(doc), tree_name@).contains_key(
            parent->0,
        )) ==> r is Ok,
{
    let tree = doc.get_tree(tree_name);
    match parent {
        None => tree.create(TreeParentId::Root),
        Some(p) => tree.create(TreeParentId::Node(p)),
    }
}

/// `LoroTree::mov` on the tree `tree_name` of `doc`: moves `target` under
/// `parent` (to the roots for `None`); Loro refuses a parent that does not
/// exist or lies under `target`. Claimed: on success `target` has `parent`
/// as its parent, no other node's parent changes and no member, slot or
/// foreign value changes; the call succeeds on a sound document when
/// `target` is not itself deleted and the parent is a root, or a node that
/// is not itself deleted and does not lie under `target`.
#[verifier::external_body]
fn loro_mov(doc: &mut LoroDoc, tree_name: &str, target: TreeID, parent: Option<TreeID>) -> (r: Result<(), LoroError>)
    requires
        plain_root_name(tree_name@),
    ensures
        r is Ok ==> tree_parents(*final(doc), tree_name@) == tree_parents(*old(doc), tree_name@).insert(
            target,
            parent,
        ),
        r is Ok ==> meta_strings(*final(doc), tree_name@) == meta_strings(*old(doc), tree_name@),
        r is Ok ==> slot_texts(*final(doc), tree_name@) == slot_texts(*old(doc), tree_name@),
        r is Ok ==> slot_maps(*final(doc), tree_name@) == slot_maps(*old(doc), tree_name@),
        r is Ok ==> foreign_slots(*final(doc), tree_name@) == foreign_slots(*old(doc), tree_name@),
        doc_sound(*final(doc)) == doc_sound(*old(doc)),
        doc_sound(*old(doc)) && tree_parents(*old(doc), tree_name@).contains_key(target) && (parent is None
            || (tree_parents(*old(doc), tree_name@).contains_key(parent->0) && !under(
            tree_parents(*old(doc), tree_name@),
            parent->0,
            target,
        ))) ==> r is Ok,
{
    let tree = doc.get_tree(tree_name);
    match parent {
        None => tree.mov(target, TreeParentId::Root),
        Some(p) => tree.mov(target, TreeParentId::Node(p)),
    }
}

/// `LoroTree::mov_after` on the tree `tree_name` of `doc`: places `target`
/// right after `after`, under the parent of `after`; Loro refuses an
/// `after` that is missing or deleted, and a parent that lies under
/// `target`. Claimed: on success `after` was a node that is not deleted,
/// `target` now has the parent `after` had, no other node's parent changes
/// and no member, slot or foreign value changes; the call succeeds on a
/// sound document when neither node is itself deleted and the parent of
/// `after` is a root or does not lie under `target`.
#[verifier::external_body]
fn loro_mov_after(doc: &mut LoroDoc, tree_name: &str, target: TreeID, after: TreeID) -> (r: Result<(), LoroError>)
    requires
        plain_root_name(tree_name@),
    ensures
        r is Ok ==> tree_parents(*old(doc), tree_name@).contains_key(after) && tree_parents(
            *final(doc),
            tree_name@,
        ) == tree_parents(*old(doc), tree_name@).insert(
            target,
            tree_parents(*old(doc), tree_name@)[after],
        ),
        r is Ok ==> meta_strings(*final(doc), tree_name@) == meta_strings(*old(doc), tree_name@),
        r is Ok ==> slot_texts(*final(doc), tree_name@) == slot_texts(*old(doc), tree_name@),
        r is Ok ==> slot_maps(*final(doc), tree_name@) == slot_maps(*old(doc), tree_name@),
        r is Ok ==> foreign_slots(*final(doc), tree_name@) == foreign_slots(*old(doc), tree_name@),
        doc_sound(*final(doc)) == doc_sound(*old(doc)),
        doc_sound(*old(doc)) && tree_parents(*old(doc), tree_name@).contains_key(target)
            && tree_parents(*old(doc), tree_name@).contains_key(after) && (tree_parents(
            *old(doc),
            tree_name@,
        )[after] is None || !under(
            tree_parents(*old(doc), tree_name@),
            tree_parents(*old(doc), tree_name@)[after]->0,
            target,
        )) ==> r is Ok,
{
    doc.get_tree(tree_name).mov_after(target, after)
}

/// `LoroTree::delete` on the tree `tree_name` of `doc`: deletes a node (its
/// subtree leaves the state). Claimed: on success `target` is deleted, no
/// other node's parent changes and no member, slot or foreign value changes
/// (a deleted node keeps its metadata); the call succeeds on a sound
/// document when `target` is not itself deleted.
#[verifier::external_body]
fn loro_delete(doc: &mut LoroDoc, tree_name: &str, target: TreeID) -> (r: Result<(), LoroError>)
    requires
        plain_root_name(tree_name@),
    ensures
        r is Ok ==> tree_parents(*final(doc), tree_name@) == tree_parents(*old(doc), tree_name@).remove(
            target,
        ),
        r is Ok ==> meta_strings(*final(doc), tree_name@) == meta_strings(*old(doc), tree_name@),
        r is Ok ==> slot_texts(*final(doc), tree_name@) == slot_texts(*old(doc), tree_name@),
        r is Ok ==> slot_maps(*final(doc), tree_name@) == slot_maps(*old(doc), tree_name@),
        r is Ok ==> foreign_slots(*final(doc), tree_name@) == foreign_slots(*old(doc), tree_name@),
        doc_sound(*final(doc)) == doc_sound(*old(doc)),
        doc_sound(*old(doc)) && tree_parents(*old(doc), tree_name@).contains_key(target) ==> r is Ok,
{
    doc.get_tree(tree_name).delete(target)
}

/// `LoroTree::get_meta` and `LoroMap::insert` with a string value: writes
/// `key -> value` into the metadata map of `target` in the tree
/// `tree_name` of `doc`; Loro refuses a node that does not exist and a map
/// under a deleted node. Claimed: on success that string member is set
/// (the slot is no longer foreign), every other member is unchanged, and no
/// node moves; the call succeeds on a sound document when the node is
/// alive (it and its ancestors not deleted).
#[verifier::external_body]
fn loro_meta_set(doc: &mut LoroDoc, tree_name: &str, target: TreeID, key: &str, value: &str) -> (r: Result<(), LoroError>)
    requires
        plain_root_name(tree_name@),
    ensures
        r is Ok ==> meta_strings(*final(doc), tree_name@) == meta_strings(*old(doc), tree_name@).insert(
            (target, key@),
            value@,
        ),
        r is Ok ==> tree_parents(*final(doc), tree_name@) == tree_parents(*old(doc), tree_name@),
        r is Ok ==> slot_texts(*final(doc), tree_name@) == slot_texts(*old(doc), tree_name@),
        r is Ok ==> slot_maps(*final(doc), tree_name@) == slot_maps(*old(doc), tree_name@),
        r is Ok ==> foreign_slots(*final(doc), tree_name@) == foreign_slots(*old(doc), tree_name@).remove(
            (target, key@),
        ),
        doc_sound(*final(doc)) == doc_sound(*old(doc)),
        doc_sound(*old(doc)) && rooted(tree_parents(*old(doc), tree_name@), target) ==> r is Ok,
{
    doc.get_tree(tree_name).get_meta(target)?.insert(key, value)
}

/// `LoroTree::get_meta` and `LoroMap::get`: reads `key` in the metadata map
/// of `target` in the tree `tree_name` of `doc`. On success: `None` when
/// the key is absent, the string held there, or `None` inside when the
/// value is not a string. Claimed: a string member is read back as it is,
/// and the read succeeds for every node that is not itself deleted (it
/// fails only for a node the tree does not hold).
#[verifier::external_body]
fn loro_meta_get(doc: &LoroDoc, tree_name: &str, target: TreeID, key: &str) -> (r: Result<Option<Option<String>>, LoroError>)
    requires
        plain_root_name(tree_name@),
    ensures
        tree_parents(*doc, tree_name@).contains_key(target) ==> r is Ok,
        r matches Ok(v) ==> match v {
            Some(Some(s)) => meta_strings(*doc, tree_name@).contains_key((target, key@)) && s@
                == meta_strings(*doc, tree_name@)[(target, key@)],
            _ => !meta_strings(*doc, tree_name@).contains_key((target, key@)),
        },
{
    let meta = doc.get_tree(tree_name).get_meta(target)?;
    Ok(match meta.get(key) {
        None => None,
        Some(ValueOrContainer::Value(LoroValue::String(s))) => Some(Some(s.to_string())),
        Some(_) => Some(None),
    })
}

/// `LoroTree::nodes` on the tree `tree_name` of `doc`: every node the tree
/// holds, deleted ones included, each once. Claimed: every node that is not
/// itself deleted is among them, without repeats.
#[verifier::external_body]
fn loro_nodes(doc: &LoroDoc, tree_name: &str) -> (r: Vec<TreeID>)
    requires
        plain_root_name(tree_name@),
    ensures
        r@.no_duplicates(),
        forall|t: TreeID| tree_parents(*doc, tree_name@).contains_key(t) ==> r@.contains(t),
{
    doc.get_tree(tree_name).nodes()
}

/// `LoroTree::is_node_deleted` on the tree `tree_name` of `doc`: whether the
/// node or one of its ancestors is deleted (the walk up the parents fails
/// on a node the tree does not hold). Claimed: a node that hangs from a
/// root through live parents is read as not deleted, and a node read as
/// not deleted does.
#[verifier::external_body]
fn loro_is_node_deleted(doc: &LoroDoc, tree_name: &str, target: TreeID) -> (r: Result<bool, LoroError>)
    requires
        plain_root_name(tree_name@),
    ensures
        r matches Ok(b) ==> (!b <==> rooted(tree_parents(*doc, tree_name@), target)),
        rooted(tree_parents(*doc, tree_name@), target) ==> r is Ok,
{
    doc.get_tree(tree_name).is_node_deleted(&target)
}

/// The text of a slot: `text_at` reads a missing container as empty.
pub open spec fn text_at(texts: Map<(TreeID, Seq<char>), Seq<char>>, t: TreeID, slot: Seq<char>) -> Seq<char> {
    if texts.contains_key((t, slot)) {
        texts[(t, slot)]
    } else {
        Seq::empty()
    }
}

/// The members of a slot map: `map_at` reads a missing container as empty.
pub open spec fn map_at(
    maps: Map<(TreeID, Seq<char>), Map<Seq<char>, Option<Seq<char>>>>,
    t: TreeID,
    slot: Seq<char>,
) -> Map<Seq<char>, Option<Seq<char>>> {
    if maps.contains_key((t, slot)) {
        maps[(t, slot)]
    } else {
        Map::empty()
    }
}

/// `s` with `del` characters at `pos` replaced by `ins`.
pub open spec fn spliced(s: Seq<char>, pos: int, del: int, ins: Seq<char>) -> Seq<char> {
    s.take(pos) + ins + s.skip(pos + del)
}

/// An optional text by its view.
pub open spec fn opt_view(o: Option<String>) -> Option<Seq<char>> {
    match o {
        Some(s) => Some(s@),
        None => None,
    }
}

/// The `(key, value)` list `es` lists the members of `m`, each key once, in
/// some order.
pub open spec fn lists_members(es: Seq<(String, Option<String>)>, m: Map<Seq<char>, Option<Seq<char>>>) -> bool {
    &&& forall|i: int, j: int| 0 <= i < j < es.len() ==> es[i].0@ != es[j].0@
    &&& forall|i: int|
        0 <= i < es.len() ==> m.contains_key(#[trigger] es[i].0@) && m[es[i].0@] == opt_view(es[i].1)
    &&& forall|k: Seq<char>| m.contains_key(k) ==> exists|i: int| 0 <= i < es.len() && #[trigger] es[i].0@ == k
}

/// `LoroTree::get_meta`, `LoroMap::ensure_mergeable_text` and
/// `LoroText::to_string`: the text of the slot `slot` of `target`; the
/// metadata map gets a marker for the container (a binary value, no string)
/// when it has none. Ensuring fails, changing nothing, when the slot holds
/// a value that is neither null nor such a marker, and Loro refuses edits
/// under a deleted node. Claimed: on success the result is the slot's text,
/// and no member, parent, text, map or foreign value changes; the call
/// succeeds on a sound document for an alive node whose slot is open (see
/// `slot_open`). The other slot wrappers succeed on the same condition
/// (for a splice, with the range inside the text).
#[verifier::external_body]
fn loro_slot_text(doc: &mut LoroDoc, tree_name: &str, target: TreeID, slot: &str) -> (r: Result<String, LoroError>)
    requires
        plain_root_name(tree_name@),
    ensures
        r matches Ok(s) ==> s@ == text_at(slot_texts(*old(doc), tree_name@), target, slot@),
        r is Ok ==> meta_strings(*final(doc), tree_name@) == meta_strings(*old(doc), tree_name@),
        r is Ok ==> tree_parents(*final(doc), tree_name@) == tree_parents(*old(doc), tree_name@),
        r is Ok ==> slot_texts(*final(doc), tree_name@) == slot_texts(*old(doc), tree_name@),
        r is Ok ==> slot_maps(*final(doc), tree_name@) == slot_maps(*old(doc), tree_name@),
        r is Ok ==> foreign_slots(*final(doc), tree_name@) == foreign_slots(*old(doc), tree_name@),
        doc_sound(*final(doc)) == doc_sound(*old(doc)),
        doc_sound(*old(doc)) && rooted(tree_parents(*old(doc), tree_name@), target) && slot_open(
            meta_strings(*old(doc), tree_name@),
            foreign_slots(*old(doc), tree_name@),
            target,
            slot@,
        ) ==> r is Ok,
{
    Ok(doc.get_tree(tree_name).get_meta(target)?.ensure_mergeable_text(slot)?.to_string())
}

/// `LoroTree::get_meta`, `LoroMap::ensure_mergeable_text` and
/// `LoroText::splice` (positions in Unicode characters): deletes `del`
/// characters at `pos` of the slot's text and inserts `ins` there; fails
/// when the range leaves the text. Claimed: on success the range lay in the
/// text, the text is spliced, and nothing else changes.
#[verifier::external_body]
fn loro_slot_splice(
    doc: &mut LoroDoc,
    tree_name: &str,
    target: TreeID,
    slot: &str,
    pos: usize,
    del: usize,
    ins: &str,
) -> (r: Result<String, LoroError>)
    requires
        plain_root_name(tree_name@),
    ensures
        r is Ok ==> pos + del <= text_at(slot_texts(*old(doc), tree_name@), target, slot@).len(),
        r is Ok ==> slot_texts(*final(doc), tree_name@) == slot_texts(*old(doc), tree_name@).insert(
            (target, slot@),
            spliced(text_at(slot_texts(*old(doc), tree_name@), target, slot@), pos as int, del as int, ins@),
        ),
        r is Ok ==> meta_strings(*final(doc), tree_name@) == meta_strings(*old(doc), tree_name@),
        r is Ok ==> tree_parents(*final(doc), tree_name@) == tree_parents(*old(doc), tree_name@),
        r is Ok ==> slot_maps(*final(doc), tree_name@) == slot_maps(*old(doc), tree_name@),
        r is Ok ==> foreign_slots(*final(doc), tree_name@) == foreign_slots(*old(doc), tree_name@),
        doc_sound(*final(doc)) == doc_sound(*old(doc)),
        doc_sound(*old(doc)) && rooted(tree_parents(*old(doc), tree_name@), target) && slot_open(
            meta_strings(*old(doc), tree_name@),
            foreign_slots(*old(doc), tree_name@),
            target,
            slot@,
        ) && pos + del <= text_at(
            slot_texts(*old(doc), tree_name@),
            target,
            slot@,
        ).len() ==> r is Ok,
{
    doc.get_tree(tree_name).get_meta(target)?.ensure_mergeable_text(slot)?.splice(pos, del, ins)
}

/// `LoroTree::get_meta`, `LoroMap::ensure_mergeable_map` and
/// `LoroMap::insert` with a string value: writes `key -> value` into the
/// slot's map. Claimed: on success that member is set and nothing else
/// changes.
#[verifier::external_body]
fn loro_slot_map_set(doc: &mut LoroDoc, tree_name: &str, target: TreeID, slot: &str, key: &str, value: &str) -> (r: Result<(), LoroError>)
    requires
        plain_root_name(tree_name@),
    ensures
        r is Ok ==> slot_maps(*final(doc), tree_name@) == slot_maps(*old(doc), tree_name@).insert(
            (target, slot@),
            map_at(slot_maps(*old(doc), tree_name@), target, slot@).insert(key@, Some(value@)),
        ),
        r is Ok ==> meta_strings(*final(doc), tree_name@) == meta_strings(*old(doc), tree_name@),
        r is Ok ==> tree_parents(*final(doc), tree_name@) == tree_parents(*old(doc), tree_name@),
        r is Ok ==> slot_texts(*final(doc), tree_name@) == slot_texts(*old(doc), tree_name@),
        r is Ok ==> foreign_slots(*final(doc), tree_name@) == foreign_slots(*old(doc), tree_name@),
        doc_sound(*final(doc)) == doc_sound(*old(doc)),
        doc_sound(*old(doc)) && rooted(tree_parents(*old(doc), tree_name@), target) && slot_open(
            meta_strings(*old(doc), tree_name@),
            foreign_slots(*old(doc), tree_name@),
            target,
            slot@,
        ) ==> r is Ok,
{
    doc.get_tree(tree_name).get_meta(target)?.ensure_mergeable_map(slot)?.insert(key, value)
}

/// `LoroTree::get_meta`, `LoroMap::ensure_mergeable_map` and
/// `LoroMap::delete`: removes `key` from the slot's map. Claimed: on success
/// the member is gone and nothing else changes.
#[verifier::external_body]
fn loro_slot_map_delete(doc: &mut LoroDoc, tree_name: &str, target: TreeID, slot: &str, key: &str) -> (r: Result<(), LoroError>)
    requires
        plain_root_name(tree_name@),
    ensures
        r is Ok ==> slot_maps(*final(doc), tree_name@) == slot_maps(*old(doc), tree_name@).insert(
            (target, slot@),
            map_at(slot_maps(*old(doc), tree_name@), target, slot@).remove(key@),
        ),
        r is Ok ==> meta_strings(*final(doc), tree_name@) == meta_strings(*old(doc), tree_name@),
        r is Ok ==> tree_parents(*final(doc), tree_name@) == tree_parents(*old(doc), tree_name@),
        r is Ok ==> slot_texts(*final(doc), tree_name@) == slot_texts(*old(doc), tree_name@),
        r is Ok ==> foreign_slots(*final(doc), tree_name@) == foreign_slots(*old(doc), tree_name@),
        doc_sound(*final(doc)) == doc_sound(*old(doc)),
        doc_sound(*old(doc)) && rooted(tree_parents(*old(doc), tree_name@), target) && slot_open(
            meta_strings(*old(doc), tree_name@),
            foreign_slots(*old(doc), tree_name@),
            target,
            slot@,
        ) ==> r is Ok,
{
    doc.get_tree(tree_name).get_meta(target)?.ensure_mergeable_map(slot)?.delete(key)
}

/// `LoroTree::get_meta`, `LoroMap::ensure_mergeable_map`, `LoroMap::keys`
/// and `LoroMap::get`: the members of the slot's map in the map's order,
/// `None` for a value that is not a string. Claimed: on success the list
/// holds each member once, and nothing changes.
#[verifier::external_body]
fn loro_slot_map_entries(doc: &mut LoroDoc, tree_name: &str, target: TreeID, slot: &str) -> (r: Result<Vec<(String, Option<String>)>, LoroError>)
    requires
        plain_root_name(tree_name@),
    ensures
        r matches Ok(v) ==> lists_members(v@, map_at(slot_maps(*old(doc), tree_name@), target, slot@)),
        r is Ok ==> meta_strings(*final(doc), tree_name@) == meta_strings(*old(doc), tree_name@),
        r is Ok ==> tree_parents(*final(doc), tree_name@) == tree_parents(*old(doc), tree_name@),
        r is Ok ==> slot_texts(*final(doc), tree_name@) == slot_texts(*old(doc), tree_name@),
        r is Ok ==> slot_maps(*final(doc), tree_name@) == slot_maps(*old(doc), tree_name@),
        r is Ok ==> foreign_slots(*final(doc), tree_name@) == foreign_slots(*old(doc), tree_name@),
        doc_sound(*final(doc)) == doc_sound(*old(doc)),
        doc_sound(*old(doc)) && rooted(tree_parents(*old(doc), tree_name@), target) && slot_open(
            meta_strings(*old(doc), tree_name@),
            foreign_slots(*old(doc), tree_name@),
            target,
            slot@,
        ) ==> r is Ok,
{
    let map = doc.get_tree(tree_name).get_meta(target)?.ensure_mergeable_map(slot)?;
    Ok(map
        .keys()
        .map(|k| {
            let v = match map.get(&k) {
                Some(ValueOrContainer::Value(LoroValue::String(s))) => Some(s.to_string()),
                _ => None,
            };
            (k.to_string(), v)
        })
        .collect())
}

/// `LoroDoc::commit`: closes the pending transaction, which groups the
/// operations for history and events. Claimed: the state is as it was (a
/// Loro transaction has no rollback; its operations reach the state when
/// they are made), in every tree.
#[verifier::external_body]
fn loro_commit(doc: &mut LoroDoc)
    ensures
        forall|t: Seq<char>|
            #![trigger meta_strings(*final(doc), t)]
            meta_strings(*final(doc), t) == meta_strings(*old(doc), t) && tree_parents(*final(doc), t)
                == tree_parents(*old(doc), t) && slot_texts(*final(doc), t) == slot_texts(*old(doc), t)
                && slot_maps(*final(doc), t) == slot_maps(*old(doc), t) && foreign_slots(*final(doc), t)
                == foreign_slots(*old(doc), t),
        doc_sound(*final(doc)) == doc_sound(*old(doc)),
{
    doc.commit()
}

/// `LoroDoc::import`: merges exported bytes into the document. Claimed:
/// a document whose history was empty holds afterwards what any such
/// document holds after importing the same bytes (the import of the same
/// bytes into an empty history is deterministic); a sound document with an
/// empty history takes any full export of a sound document (as Loro's
/// documentation shows), and a sound document stays sound after taking
/// one. Into a document with history of its own, success is not claimed:
/// Loro compares operations with known ids and may refuse them.
#[verifier::external_body]
fn loro_import(doc: &mut LoroDoc, bytes: &[u8]) -> (r: Result<(), LoroError>)
    ensures
        r is Ok && oplog_len(*old(doc)) == 0 ==> (forall|t: Seq<char>|
            #![trigger meta_strings(*final(doc), t)]
            #![trigger imported_strings(bytes@, t)]
            meta_strings(*final(doc), t) == imported_strings(bytes@, t) && tree_parents(*final(doc), t) == imported_parents(bytes@, t)
                && slot_texts(*final(doc), t) == imported_texts(bytes@, t) && slot_maps(*final(doc), t) == imported_maps(bytes@, t)
                && foreign_slots(*final(doc), t) == imported_foreign(bytes@, t)),
        oplog_len(*old(doc)) == 0 && doc_sound(*old(doc)) && importable(bytes@) ==> r is Ok,
        r is Ok && doc_sound(*old(doc)) && importable(bytes@) ==> doc_sound(*final(doc)),
{
    doc.import(bytes).map(|_| ())
}

/// `LoroDoc::export` in snapshot mode: the full history and state (local
/// edits are committed first, which leaves the state as it is); the call
/// fails only when the history holds a change block that cannot be parsed
/// (a full snapshot of a complete history is encoded without other
/// failures, short of a length beyond the address space). Claimed: a document with an empty history that imports the
/// bytes holds what this document holds; a sound document exports, and its
/// bytes are importable. The bytes themselves are not described.
#[verifier::external_body]
fn loro_export_snapshot(doc: &LoroDoc) -> (r: Result<Vec<u8>, LoroEncodeError>)
    ensures
        r matches Ok(b) ==> (forall|t: Seq<char>|
            #![trigger meta_strings(*doc, t)]
            #![trigger imported_strings(b@, t)]
            meta_strings(*doc, t) == imported_strings(b@, t) && tree_parents(*doc, t) == imported_parents(b@, t)
                && slot_texts(*doc, t) == imported_texts(b@, t) && slot_maps(*doc, t) == imported_maps(b@, t)
                && foreign_slots(*doc, t) == imported_foreign(b@, t)),
        doc_sound(*doc) ==> r is Ok,
        doc_sound(*doc) ==> (r matches Ok(b) ==> importable(b@)),
{
    doc.export(ExportMode::Snapshot)
}

/// `VersionVector::decode` and `LoroDoc::export` in updates mode: the
/// operations since the encoded version `since` (all of them for `None`);
/// the message of the decoding or encoding error otherwise. Claimed: the
/// updates since the empty version (`None`) bring a document with an empty
/// history to what this document holds, and a sound document exports them
/// (updates are encoded without failure once the history parses) as
/// importable bytes. The bytes themselves are not described.
#[verifier::external_body]
fn loro_export_updates(doc: &LoroDoc, since: Option<&[u8]>) -> (r: Result<Vec<u8>, String>)
    ensures
        since is None ==> (r matches Ok(b) ==> (forall|t: Seq<char>|
            #![trigger meta_strings(*doc, t)]
            #![trigger imported_strings(b@, t)]
            meta_strings(*doc, t) == imported_strings(b@, t) && tree_parents(*doc, t) == imported_parents(b@, t)
                && slot_texts(*doc, t) == imported_texts(b@, t) && slot_maps(*doc, t) == imported_maps(b@, t)
                && foreign_slots(*doc, t) == imported_foreign(b@, t))),
        since is None && doc_sound(*doc) ==> r is Ok,
        since is None && doc_sound(*doc) ==> (r matches Ok(b) ==> importable(b@)),
{
    let vv = match since {
        Some(bytes) => VersionVector::decode(bytes).map_err(|e| e.to_string())?,
        None => VersionVector::default(),
    };
    doc.export(ExportMode::updates(&vv)).map_err(|e| e.to_string())
}

/// `LoroDoc::oplog_vv` and `VersionVector::encode`: the encoded version of
/// the operation log. It depends on the document's state, which Verus does
/// not see, so no clause describes it.
#[verifier::external_body]
fn loro_version(doc: &LoroDoc) -> (r: Vec<u8>) {
    doc.oplog_vv().encode()
}

/// `Display` of `LoroError`. The error is opaque to Verus, so no clause
/// describes the text.
#[verifier::external_body]
fn loro_error_text(e: &LoroError) -> (r: String) {
    e.to_string()
}

/// `Display` of `LoroEncodeError`.
#[verifier::external_body]
fn loro_encode_error_text(e: &LoroEncodeError) -> (r: String) {
    e.to_string()
}

// ---------------------------------------------------------------------------
// The document
// ---------------------------------------------------------------------------

/// A stable external node id (a wiki block id, a graph node id, ...).
#[derive(Debug, Clone, PartialEq, Eq, Hash)]
pub struct NodeId(pub String);

impl From<String> for NodeId {
    fn from(s: String) -> (r: NodeId) {
        NodeId(s)
    }
}

impl vstd::std_specs::convert::FromSpecImpl<String> for NodeId {
    open spec fn obeys_from_spec() -> bool {
        true
    }

    open spec fn from_spec(v: String) -> NodeId {
        NodeId(v)
    }
}

/// Errors of the document layer.
#[derive(Debug)]
pub enum UwuCrdtError {
    Loro(String),
    NodeNotFound(String),
    Serialization(String),
}

impl UwuCrdtError {
    /// The error's message.
    pub fn message(&self) -> (r: String)
        ensures
            r@ == match self {
                UwuCrdtError::Loro(m) => "loro: "@ + m@,
                UwuCrdtError::NodeNotFound(m) => "node not found: "@ + m@,
                UwuCrdtError::Serialization(m) => "serialization: "@ + m@,
            },
    {
        match self {
            UwuCrdtError::Loro(m) => concat_str("loro: ", m.as_str()),
            UwuCrdtError::NodeNotFound(m) => concat_str("node not found: ", m.as_str()),
            UwuCrdtError::Serialization(m) => concat_str("serialization: ", m.as_str()),
        }
    }
}

/// A tree operation, independent of any domain. Payloads, patches and map
/// values are JSON text.
#[derive(Debug, Clone)]
pub enum UwuOp {
    /// A new node under `parent` (a root for `None`), placed after the
    /// sibling `after` when one is given, carrying the payload `data`.
    Insert { id: NodeId, parent: Option<NodeId>, after: Option<NodeId>, data: String },
    /// Merges `patch` into the node's payload (top-level members, the
    /// patch's winning; any non-object replaces the payload).
    Update { id: NodeId, patch: String },
    /// Deletes the node.
    Delete { id: NodeId },
    /// Moves the node under `new_parent`, after `after` when one is given.
    Move { id: NodeId, new_parent: Option<NodeId>, after: Option<NodeId> },
    /// Splices the text container `slot` of the node's metadata.
    TextSplice { id: NodeId, slot: String, pos: usize, del: usize, insert: String },
    /// Writes `key -> value` into the map container `slot` of the node.
    MapSet { id: NodeId, slot: String, key: String, value: String },
    /// Removes `key` from the map container `slot` of the node.
    MapDelete { id: NodeId, slot: String, key: String },
}

/// The id that an operation acts on.
pub open spec fn op_id(op: UwuOp) -> Seq<char> {
    match op {
        UwuOp::Insert { id, .. } => id.0@,
        UwuOp::Update { id, .. } => id.0@,
        UwuOp::Delete { id } => id.0@,
        UwuOp::Move { id, .. } => id.0@,
        UwuOp::TextSplice { id, .. } => id.0@,
        UwuOp::MapSet { id, .. } => id.0@,
        UwuOp::MapDelete { id, .. } => id.0@,
    }
}

/// The first id, in the order the operation looks them up, that the index
/// `ids` lacks, and whether that lookup comes after a Loro call: the parent
/// then (after creating the node) the sibling of an insert; the node, then
/// its new parent, then (after moving it) the sibling of a move; the node
/// for the others.
pub open spec fn op_fault(ids: Set<Seq<char>>, op: UwuOp) -> Option<(Seq<char>, bool)> {
    match op {
        UwuOp::Insert { parent, after, .. } => if absent(ids, parent) {
            Some((id_of(parent), false))
        } else if absent(ids, after) {
            Some((id_of(after), true))
        } else {
            None
        },
        UwuOp::Move { id, new_parent, after } => if !ids.contains(id.0@) {
            Some((id.0@, false))
        } else if absent(ids, new_parent) {
            Some((id_of(new_parent), false))
        } else if absent(ids, after) {
            Some((id_of(after), true))
        } else {
            None
        },
        _ => if !ids.contains(op_id(op)) {
            Some((op_id(op), false))
        } else {
            None
        },
    }
}

/// The id held by an optional reference (empty for `None`).
pub open spec fn id_of(o: Option<NodeId>) -> Seq<char> {
    match o {
        Some(n) => n.0@,
        None => Seq::empty(),
    }
}

/// Whether an optional reference names an id that `ids` lacks.
pub open spec fn absent(ids: Set<Seq<char>>, o: Option<NodeId>) -> bool {
    match o {
        Some(n) => !ids.contains(n.0@),
        None => false,
    }
}

/// The ids of the index after `op` succeeded.
pub open spec fn op_ids_after(ids: Set<Seq<char>>, op: UwuOp) -> Set<Seq<char>> {
    match op {
        UwuOp::Insert { id, .. } => ids.insert(id.0@),
        UwuOp::Delete { id } => ids.remove(id.0@),
        _ => ids,
    }
}

/// The ids of the index after the operations `ops` all succeeded.
pub open spec fn ops_ids_after(ids: Set<Seq<char>>, ops: Seq<UwuOp>) -> Set<Seq<char>>
    decreases ops.len(),
{
    if ops.len() == 0 {
        ids
    } else {
        op_ids_after(ops_ids_after(ids, ops.drop_last()), ops.last())
    }
}

/// What a document is seen as: its index, string members, parents, slot
/// texts, slot maps and foreign slots.
pub type DocState = (
    Map<Seq<char>, TreeID>,
    Map<(TreeID, Seq<char>), Seq<char>>,
    Map<TreeID, Option<TreeID>>,
    Map<(TreeID, Seq<char>), Seq<char>>,
    Map<(TreeID, Seq<char>), Map<Seq<char>, Option<Seq<char>>>>,
    Set<(TreeID, Seq<char>)>,
);

/// `op` succeeded and took the document from `s` to `t` (see `op_outcome`,
/// `op_effect`, `slot_effect`).
pub open spec fn step_holds(s: DocState, op: UwuOp, t: DocState) -> bool {
    &&& op_outcome(s.0, op, Ok(()), t.0)
    &&& op_effect(s.0, s.1, s.2, op, t.0, t.1, t.2)
    &&& slot_effect(s.0, s.1, s.2, s.3, s.4, op, t.1, t.2, t.3, t.4)
    &&& foreign_effect(s.0, s.5, op, t.0, t.5)
}

/// What a successful operation does to the foreign slots: writing a node's
/// `uid` and `data` strings clears those two slots; nothing else changes.
pub open spec fn foreign_effect(
    ids: Map<Seq<char>, TreeID>,
    foreign: Set<(TreeID, Seq<char>)>,
    op: UwuOp,
    ids2: Map<Seq<char>, TreeID>,
    foreign2: Set<(TreeID, Seq<char>)>,
) -> bool {
    match op {
        UwuOp::Insert { id, .. } => foreign2 == foreign.remove((ids2[id.0@], UID_KEY@)).remove(
            (ids2[id.0@], DATA_KEY@),
        ),
        UwuOp::Update { id, .. } => foreign2 == foreign.remove((ids[id.0@], UID_KEY@)).remove(
            (ids[id.0@], DATA_KEY@),
        ),
        _ => foreign2 == foreign,
    }
}

/// The node an optional reference names, when it names one.
pub open spec fn ref_alive(s: DocState, o: Option<NodeId>) -> bool {
    match o {
        Some(n) => rooted(s.2, s.0[n.0@]),
        None => true,
    }
}

/// Whether the document `s` is ready for `op` beyond its ids being in the
/// index (see `op_fault`), so that Loro accepts it: an insert's parent and
/// sibling are alive; an update's node is alive and the patch applies to
/// its payload; a deleted node is not itself deleted; a move's node is not
/// itself deleted, the new parent is a root or a node not itself deleted
/// and not under the moved node, and the sibling, after that move, is not
/// itself deleted and has a parent that is a root or not under the moved
/// node; a slot edit's node is alive and its slot open (see `slot_open`),
/// a splice's range lying in the text.
pub open spec fn op_ready(s: DocState, op: UwuOp) -> bool {
    match op {
        UwuOp::Insert { parent, after, .. } => ref_alive(s, parent) && ref_alive(s, after),
        UwuOp::Update { id, patch } => {
            let t = s.0[id.0@];
            rooted(s.2, t) && patched_text(stored_data(s.1, t), patch@) is Ok
        },
        UwuOp::Delete { id } => s.2.contains_key(s.0[id.0@]),
        UwuOp::Move { id, new_parent, after } => {
            let t = s.0[id.0@];
            let p1 = s.2.insert(t, ref_node(s.0, new_parent));
            &&& s.2.contains_key(t)
            &&& match new_parent {
                Some(np) => s.2.contains_key(s.0[np.0@]) && !under(s.2, s.0[np.0@], t),
                None => true,
            }
            &&& match after {
                Some(a) => p1.contains_key(s.0[a.0@]) && (p1[s.0[a.0@]] is None || !under(
                    p1,
                    p1[s.0[a.0@]]->0,
                    t,
                )),
                None => true,
            }
        },
        UwuOp::TextSplice { id, slot, pos, del, .. } => {
            let t = s.0[id.0@];
            rooted(s.2, t) && slot_open(s.1, s.5, t, slot@) && pos + del <= text_at(s.3, t, slot@).len()
        },
        UwuOp::MapSet { id, slot, .. } => rooted(s.2, s.0[id.0@]) && slot_open(s.1, s.5, s.0[id.0@], slot@),
        UwuOp::MapDelete { id, slot, .. } => rooted(s.2, s.0[id.0@]) && slot_open(s.1, s.5, s.0[id.0@], slot@),
    }
}

/// `states` are the document before each operation of `ops` and after the
/// last, each operation having succeeded.
pub open spec fn applied_chain(states: Seq<DocState>, ops: Seq<UwuOp>) -> bool {
    &&& states.len() == ops.len() + 1
    &&& forall|i: int| 0 <= i < ops.len() ==> step_holds(states[i], #[trigger] ops[i], states[i + 1])
}

/// Whether every operation of `ops`, applied in turn from `s0`, finds its
/// ids in the index and the document ready for it (see `op_fault`,
/// `op_ready`), whatever nodes the earlier inserts created.
pub open spec fn ready_in_turn(s0: DocState, ops: Seq<UwuOp>) -> bool {
    forall|states: Seq<DocState>, k: int|
        #![trigger applied_chain(states, ops.take(k))]
        0 <= k < ops.len() && applied_chain(states, ops.take(k)) && states[0] == s0 ==> op_fault(
            states[k].0.dom(),
            ops[k],
        ) is None && op_ready(states[k], ops[k])
}

/// How the index of a document may change under `op` with result `r`: a
/// missing id fails with `NodeNotFound` (or, when it is looked up after a
/// Loro call, with that call's failure) and changes nothing; any other
/// failure comes from Loro or from reading JSON and changes nothing either;
/// a success adds the inserted id (with the node Loro created) or drops the
/// deleted one, and leaves the index alone otherwise.
pub open spec fn op_outcome(
    before: Map<Seq<char>, TreeID>,
    op: UwuOp,
    r: Result<(), UwuCrdtError>,
    after: Map<Seq<char>, TreeID>,
) -> bool {
    match op_fault(before.dom(), op) {
        Some((x, late)) => after == before && ((r matches Err(UwuCrdtError::NodeNotFound(m))
            && m@ == x) || (late && r matches Err(UwuCrdtError::Loro(_)))),
        None => match r {
            Err(e) => !(e is NodeNotFound) && after == before,
            Ok(()) => match op {
                UwuOp::Insert { id, .. } => exists|t: TreeID| after == before.insert(id.0@, t),
                UwuOp::Delete { id } => after == before.remove(id.0@),
                _ => after == before,
            },
        },
    }
}

/// The tree node an optional reference names in the index `ids`.
pub open spec fn ref_node(ids: Map<Seq<char>, TreeID>, o: Option<NodeId>) -> Option<TreeID> {
    match o {
        Some(n) => Some(ids[n.0@]),
        None => None,
    }
}

/// The parents after a node `t` was placed under `parent` and then, when
/// `after` names a sibling, moved next to it (under that sibling's parent).
pub open spec fn placed(
    ids: Map<Seq<char>, TreeID>,
    parents: Map<TreeID, Option<TreeID>>,
    t: TreeID,
    parent: Option<NodeId>,
    after: Option<NodeId>,
) -> Map<TreeID, Option<TreeID>> {
    let p1 = parents.insert(t, ref_node(ids, parent));
    match after {
        Some(a) => p1.insert(t, p1[ids[a.0@]]),
        None => p1,
    }
}

/// What a successful operation does to the document, seen through the
/// index `ids`, the string members of the metadata maps and the parents:
/// an insert gives the new node (which was not in the tree) its external id
/// and payload, leaves every other member, and places it; an update stores
/// the payload patched by `patch` (see `patched_text`) and the external id
/// again, changing nothing else; a delete removes the node from the tree and
/// a move places the node, neither changing a member. Splices and map edits
/// touch containers that these views leave out.
pub open spec fn op_effect(
    ids: Map<Seq<char>, TreeID>,
    members: Map<(TreeID, Seq<char>), Seq<char>>,
    parents: Map<TreeID, Option<TreeID>>,
    op: UwuOp,
    ids2: Map<Seq<char>, TreeID>,
    members2: Map<(TreeID, Seq<char>), Seq<char>>,
    parents2: Map<TreeID, Option<TreeID>>,
) -> bool {
    match op {
        UwuOp::Insert { id, parent, after, data } => {
            let t = ids2[id.0@];
            &&& !parents.contains_key(t)
            &&& members2 == members.insert((t, UID_KEY@), id.0@).insert((t, DATA_KEY@), data@)
            &&& parents2 == placed(ids, parents, t, parent, after)
        },
        UwuOp::Update { id, patch } => {
            let t = ids[id.0@];
            &&& patched_text(stored_data(members, t), patch@) is Ok
            &&& members2 == members.insert((t, UID_KEY@), id.0@).insert(
                (t, DATA_KEY@),
                patched_text(stored_data(members, t), patch@)->Ok_0,
            )
            &&& parents2 == parents
        },
        UwuOp::Delete { id } => parents2 == parents.remove(ids[id.0@]) && members2 == members,
        UwuOp::Move { id, new_parent, after } => parents2 == placed(ids, parents, ids[id.0@], new_parent, after)
            && members2 == members,
        _ => true,
    }
}

/// What a successful operation does to the nodes' slot containers: a
/// splice replaces `del` characters at `pos` of the slot's text (the range
/// lying in the text) by `insert`; a map set writes `key -> value` into the
/// slot's map and a map delete removes `key` from it; each changes nothing
/// else. Every other operation leaves the slots as they were.
pub open spec fn slot_effect(
    ids: Map<Seq<char>, TreeID>,
    members: Map<(TreeID, Seq<char>), Seq<char>>,
    parents: Map<TreeID, Option<TreeID>>,
    texts: Map<(TreeID, Seq<char>), Seq<char>>,
    maps: Map<(TreeID, Seq<char>), Map<Seq<char>, Option<Seq<char>>>>,
    op: UwuOp,
    members2: Map<(TreeID, Seq<char>), Seq<char>>,
    parents2: Map<TreeID, Option<TreeID>>,
    texts2: Map<(TreeID, Seq<char>), Seq<char>>,
    maps2: Map<(TreeID, Seq<char>), Map<Seq<char>, Option<Seq<char>>>>,
) -> bool {
    match op {
        UwuOp::TextSplice { id, slot, pos, del, insert } => {
            let t = ids[id.0@];
            &&& pos + del <= text_at(texts, t, slot@).len()
            &&& texts2 == texts.insert((t, slot@), spliced(text_at(texts, t, slot@), pos as int, del as int, insert@))
            &&& members2 == members && parents2 == parents && maps2 == maps
        },
        UwuOp::MapSet { id, slot, key, value } => {
            let t = ids[id.0@];
            &&& maps2 == maps.insert((t, slot@), map_at(maps, t, slot@).insert(key@, Some(value@)))
            &&& members2 == members && parents2 == parents && texts2 == texts
        },
        UwuOp::MapDelete { id, slot, key } => {
            let t = ids[id.0@];
            &&& maps2 == maps.insert((t, slot@), map_at(maps, t, slot@).remove(key@))
            &&& members2 == members && parents2 == parents && texts2 == texts
        },
        _ => texts2 == texts && maps2 == maps,
    }
}

/// A read after a successful insert gives back the inserted payload (`null`
/// for an empty one), and the node carries the inserted id.
pub proof fn read_after_insert(
    ids: Map<Seq<char>, TreeID>,
    members: Map<(TreeID, Seq<char>), Seq<char>>,
    parents: Map<TreeID, Option<TreeID>>,
    id: NodeId,
    parent: Option<NodeId>,
    after: Option<NodeId>,
    data: String,
    ids2: Map<Seq<char>, TreeID>,
    members2: Map<(TreeID, Seq<char>), Seq<char>>,
    parents2: Map<TreeID, Option<TreeID>>,
)
    requires
        op_effect(ids, members, parents, UwuOp::Insert { id, parent, after, data }, ids2, members2, parents2),
    ensures
        stored_data(members2, ids2[id.0@]) == data@,
        shown_data(stored_data(members2, ids2[id.0@])) == if data@.len() == 0 { "null"@ } else { data@ },
        members2[(ids2[id.0@], UID_KEY@)] == id.0@,
{
    reveal_strlit("uid");
    reveal_strlit("data");
    assert(UID_KEY@.len() != DATA_KEY@.len());
}

/// A read after a successful update gives the stored payload patched: the
/// patch's top-level members win over the stored object's, and a payload or
/// patch that is not an object is replaced by the patch.
pub proof fn read_after_update(
    ids: Map<Seq<char>, TreeID>,
    members: Map<(TreeID, Seq<char>), Seq<char>>,
    parents: Map<TreeID, Option<TreeID>>,
    id: NodeId,
    patch: String,
    ids2: Map<Seq<char>, TreeID>,
    members2: Map<(TreeID, Seq<char>), Seq<char>>,
    parents2: Map<TreeID, Option<TreeID>>,
)
    requires
        op_effect(ids, members, parents, UwuOp::Update { id, patch }, ids2, members2, parents2),
        ids2 == ids,
    ensures
        patched_text(stored_data(members, ids[id.0@]), patch@) == Ok::<Seq<char>, Seq<char>>(
            stored_data(members2, ids2[id.0@]),
        ),
{
}

/// A row of the index: a live node with the `uid` string it carries.
pub open spec fn row_valid(
    row: (TreeID, String),
    parents: Map<TreeID, Option<TreeID>>,
    members: Map<(TreeID, Seq<char>), Seq<char>>,
) -> bool {
    &&& rooted(parents, row.0)
    &&& members.contains_key((row.0, UID_KEY@))
    &&& row.1@ == members[(row.0, UID_KEY@)]
}

/// The rows the index is built from: each live node that carries a `uid`
/// string, once, with that string (in the order the tree lists its nodes,
/// which decides between two nodes carrying the same uid).
pub open spec fn index_rows(
    rows: Seq<(TreeID, String)>,
    parents: Map<TreeID, Option<TreeID>>,
    members: Map<(TreeID, Seq<char>), Seq<char>>,
) -> bool {
    &&& forall|a: int, b: int| 0 <= a < b < rows.len() ==> rows[a].0 != rows[b].0
    &&& forall|a: int| 0 <= a < rows.len() ==> row_valid(#[trigger] rows[a], parents, members)
    &&& forall|t: TreeID|
        rooted(parents, t) && members.contains_key((t, UID_KEY@)) ==> exists|a: int|
            0 <= a < rows.len() && #[trigger] rows[a].0 == t
}

/// A live node is in the tree.
proof fn lemma_rooted_in_parents(parents: Map<TreeID, Option<TreeID>>, t: TreeID)
    requires
        rooted(parents, t),
    ensures
        parents.contains_key(t),
{
    let n = choose|n: nat| rooted_within(parents, t, n);
    assert(rooted_within(parents, t, n));
}

/// A node new to the tree (no node has it as parent) lies above no other
/// node once it is placed.
proof fn lemma_fresh_unreached(
    parents: Map<TreeID, Option<TreeID>>,
    t: TreeID,
    v: Option<TreeID>,
    x: TreeID,
    n: nat,
)
    requires
        forall|y: TreeID| parents.contains_key(y) ==> parents[y] != Some(t),
        x != t,
    ensures
        !reaches_within(parents.insert(t, v), x, t, n),
    decreases n,
{
    let p1 = parents.insert(t, v);
    if n > 0 && p1.contains_key(x) {
        assert(p1[x] == parents[x]);
        match p1[x] {
            Some(y) => {
                lemma_fresh_unreached(parents, t, v, y, (n - 1) as nat);
            },
            None => {},
        }
    }
}

proof fn lemma_fresh_not_under(parents: Map<TreeID, Option<TreeID>>, t: TreeID, v: Option<TreeID>, x: TreeID)
    requires
        forall|y: TreeID| parents.contains_key(y) ==> parents[y] != Some(t),
        x != t,
    ensures
        !under(parents.insert(t, v), x, t),
{
    assert forall|n: nat| !reaches_within(parents.insert(t, v), x, t, n) by {
        lemma_fresh_unreached(parents, t, v, x, n);
    }
}

/// Placing a node new to the tree keeps every alive node alive.
proof fn lemma_rooted_within_fresh(
    parents: Map<TreeID, Option<TreeID>>,
    t: TreeID,
    v: Option<TreeID>,
    x: TreeID,
    n: nat,
)
    requires
        !parents.contains_key(t),
        rooted_within(parents, x, n),
    ensures
        rooted_within(parents.insert(t, v), x, n),
    decreases n,
{
    let p1 = parents.insert(t, v);
    assert(p1[x] == parents[x]);
    match parents[x] {
        Some(y) => {
            lemma_rooted_within_fresh(parents, t, v, y, (n - 1) as nat);
        },
        None => {},
    }
}

/// A node new to the tree, placed at a root or under an alive node, is
/// alive.
proof fn lemma_rooted_fresh(parents: Map<TreeID, Option<TreeID>>, t: TreeID, v: Option<TreeID>)
    requires
        !parents.contains_key(t),
        v is None || rooted(parents, v->0),
    ensures
        rooted(parents.insert(t, v), t),
{
    let p1 = parents.insert(t, v);
    match v {
        None => {
            assert(rooted_within(p1, t, 1));
        },
        Some(q) => {
            let n = choose|n: nat| rooted_within(parents, q, n);
            lemma_rooted_within_fresh(parents, t, v, q, n);
            assert(rooted_within(p1, t, n + 1));
        },
    }
}

/// The parent of an alive node is a root or alive.
proof fn lemma_parent_rooted(parents: Map<TreeID, Option<TreeID>>, a: TreeID)
    requires
        rooted(parents, a),
    ensures
        parents.contains_key(a),
        parents[a] is None || rooted(parents, parents[a]->0),
{
    let n = choose|n: nat| rooted_within(parents, a, n);
    match parents[a] {
        Some(q) => {
            assert(rooted_within(parents, q, (n - 1) as nat));
        },
        None => {},
    }
}

/// The index built from `(node, uid)` rows, a later row winning on a uid.
pub open spec fn uid_map(rows: Seq<(TreeID, String)>) -> Map<Seq<char>, TreeID>
    decreases rows.len(),
{
    if rows.len() == 0 {
        Map::empty()
    } else {
        uid_map(rows.drop_last()).insert(rows.last().1@, rows.last().0)
    }
}

/// The index from the `(node, uid)` rows of the live nodes (see `uid_map`).
pub fn uid_index(rows: &Vec<(TreeID, String)>) -> (r: StringHashMap<TreeID>)
    ensures
        r@ == uid_map(rows@),
{
    let mut m: StringHashMap<TreeID> = StringHashMap::new();
    let mut i: usize = 0;
    proof {
        assert(rows@.take(0) =~= Seq::<(TreeID, String)>::empty());
    }
    while i < rows.len()
        invariant
            i <= rows.len(),
            m@ == uid_map(rows@.take(i as int)),
        decreases rows.len() - i,
    {
        proof {
            assert(rows@.take(i as int + 1).drop_last() =~= rows@.take(i as int));
        }
        let t = rows[i].0;
        m.insert(rows[i].1.clone(), t);
        i = i + 1;
    }
    proof {
        assert(rows@.take(rows.len() as int) =~= rows@);
    }
    m
}

/// The `(key, value)` members of a map container whose value is a string
/// that reads as JSON, in order.
pub open spec fn json_members(es: Seq<(String, Option<String>)>) -> Seq<(Seq<char>, Seq<char>)>
    decreases es.len(),
{
    if es.len() == 0 {
        Seq::empty()
    } else {
        let p = json_members(es.drop_last());
        match es.last().1 {
            Some(v) => if json_entries_of(v@) is Ok {
                p.push((es.last().0@, v@))
            } else {
                p
            },
            None => p,
        }
    }
}

/// Keeps the members whose value is JSON text (see `json_members`).
pub fn keep_json_members(es: &Vec<(String, Option<String>)>) -> (r: Vec<(String, String)>)
    ensures
        pair_views(r@) == json_members(es@),
{
    let mut r: Vec<(String, String)> = Vec::new();
    let mut i: usize = 0;
    proof {
        assert(es@.take(0) =~= Seq::<(String, Option<String>)>::empty());
        assert(pair_views(r@) =~= Seq::<(Seq<char>, Seq<char>)>::empty());
    }
    while i < es.len()
        invariant
            i <= es.len(),
            pair_views(r@) == json_members(es@.take(i as int)),
        decreases es.len() - i,
    {
        proof {
            assert(es@.take(i as int + 1).drop_last() =~= es@.take(i as int));
        }
        match &es[i].1 {
            Some(v) => {
                let parsed = json_object_entries(v.as_str());
                if parsed.is_ok() {
                    let ghost before = r@;
                    r.push((es[i].0.clone(), v.clone()));
                    proof {
                        assert(pair_views(r@) =~= pair_views(before).push((es@[i as int].0@, v@)));
                    }
                }
            },
            None => {},
        }
        i = i + 1;
    }
    proof {
        assert(es@.take(es.len() as int) =~= es@);
    }
    r
}

/// A movable-tree CRDT document with its index from external ids to nodes.
pub struct UwuCrdtDoc {
    doc: LoroDoc,
    node_map: StringHashMap<TreeID>,
}

/// The name of the tree container.
pub const TREE_NAME: &'static str = "nodes";

/// The metadata key of a node's external id.
pub const UID_KEY: &'static str = "uid";

/// The metadata key of a node's JSON payload.
pub const DATA_KEY: &'static str = "data";

/// The payload text stored on node `tid`: the string under `data`, empty
/// when there is none.
pub open spec fn stored_data(members: Map<(TreeID, Seq<char>), Seq<char>>, tid: TreeID) -> Seq<char> {
    if members.contains_key((tid, DATA_KEY@)) {
        members[(tid, DATA_KEY@)]
    } else {
        Seq::empty()
    }
}

/// What a read gives for a stored payload: `null` for none, the text
/// itself otherwise.
pub open spec fn shown_data(stored: Seq<char>) -> Seq<char> {
    if stored.len() == 0 {
        "null"@
    } else {
        stored
    }
}

fn loro_failure(e: &LoroError) -> (r: UwuCrdtError)
    ensures
        r is Loro,
{
    UwuCrdtError::Loro(loro_error_text(e))
}

impl UwuCrdtDoc {
    /// The index from external ids to tree nodes.
    pub closed spec fn ids(&self) -> Map<Seq<char>, TreeID> {
        self.node_map@
    }

    /// The string members of the nodes' metadata maps.
    pub closed spec fn members(&self) -> Map<(TreeID, Seq<char>), Seq<char>> {
        meta_strings(self.doc, TREE_NAME@)
    }

    /// The parent of each node that is not deleted (`None` for a root).
    pub closed spec fn parents(&self) -> Map<TreeID, Option<TreeID>> {
        tree_parents(self.doc, TREE_NAME@)
    }

    /// The document as its index and its tree's views show it.
    pub open spec fn state(&self) -> DocState {
        (self.ids(), self.members(), self.parents(), self.texts(), self.maps(), self.foreign())
    }

    /// The slots whose value can take no container (see `foreign_slots`).
    pub closed spec fn foreign(&self) -> Set<(TreeID, Seq<char>)> {
        foreign_slots(self.doc, TREE_NAME@)
    }

    /// Whether the document accepts the edits of this library (see
    /// `doc_sound`): a new document does, and every operation keeps it so.
    pub closed spec fn sound(&self) -> bool {
        doc_sound(self.doc)
    }

    /// Whether the document's history is empty (a new replica).
    pub closed spec fn blank(&self) -> bool {
        oplog_len(self.doc) == 0
    }

    /// Whether the document holds what a new replica holds after importing
    /// `bytes`: the same string members, parents, slot texts and slot maps.
    pub closed spec fn same_as_import(&self, bytes: Seq<u8>) -> bool {
        holds_import(self.doc, bytes)
    }

    /// The texts of the nodes' text slots.
    pub closed spec fn texts(&self) -> Map<(TreeID, Seq<char>), Seq<char>> {
        slot_texts(self.doc, TREE_NAME@)
    }

    /// The members of the nodes' map slots.
    pub closed spec fn maps(&self) -> Map<(TreeID, Seq<char>), Map<Seq<char>, Option<Seq<char>>>> {
        slot_maps(self.doc, TREE_NAME@)
    }

    /// An empty document writing as `peer_id`; the tree orders siblings.
    pub fn new(peer_id: u64) -> (r: UwuCrdtDoc)
        ensures
            r.ids() == Map::<Seq<char>, TreeID>::empty(),
            r.blank(),
            r.sound(),
            r.members() == Map::<(TreeID, Seq<char>), Seq<char>>::empty(),
            r.parents() == Map::<TreeID, Option<TreeID>>::empty(),
            r.foreign() == Set::<(TreeID, Seq<char>)>::empty(),
            forall|t: TreeID, slot: Seq<char>| #[trigger] text_at(r.texts(), t, slot) == Seq::<char>::empty(),
            forall|t: TreeID, slot: Seq<char>|
                #[trigger] map_at(r.maps(), t, slot) == Map::<Seq<char>, Option<Seq<char>>>::empty(),
    {
        let doc = loro_doc_new();
        proof {
            assert(empty_tree(doc, TREE_NAME@));
        }
        let _ = loro_set_peer_id(&doc, peer_id);
        proof {
            reveal_strlit("nodes");
        }
        let tree = loro_get_tree(&doc, TREE_NAME);
        loro_enable_fractional_index(&tree, 0);
        UwuCrdtDoc { doc, node_map: StringHashMap::new() }
    }


    fn tree_id(&self, id: &NodeId) -> (r: Result<TreeID, UwuCrdtError>)
        ensures
            match r {
                Ok(t) => self.ids().contains_key(id.0@) && t == self.ids()[id.0@],
                Err(e) => !self.ids().contains_key(id.0@) && (e matches UwuCrdtError::NodeNotFound(
                    m,
                ) && m@ == id.0@),
            },
    {
        match self.node_map.get(id.0.as_str()) {
            Some(t) => Ok(*t),
            None => Err(UwuCrdtError::NodeNotFound(id.0.clone())),
        }
    }

    fn parent_of(&self, parent: &Option<NodeId>) -> (r: Result<Option<TreeID>, UwuCrdtError>)
        ensures
            match parent {
                None => r == Ok::<Option<TreeID>, UwuCrdtError>(None),
                Some(p) => match r {
                    Ok(t) => self.ids().contains_key(p.0@) && t == Some(self.ids()[p.0@]),
                    Err(e) => !self.ids().contains_key(p.0@) && (e matches UwuCrdtError::NodeNotFound(
                        m,
                    ) && m@ == p.0@),
                },
            },
    {
        match parent {
            None => Ok(None),
            Some(p) => match self.tree_id(p) {
                Ok(t) => Ok(Some(t)),
                Err(e) => Err(e),
            },
        }
    }


    /// Stores the external id and the payload text on a node.
    fn write_meta(&mut self, tid: TreeID, uid: &str, data: &str) -> (r: Result<(), UwuCrdtError>)
        ensures
            final(self).ids() == old(self).ids(),
            r matches Err(e) ==> e is Loro,
            r is Ok ==> final(self).members() == old(self).members().insert((tid, UID_KEY@), uid@).insert(
                (tid, DATA_KEY@),
                data@,
            ),
            r is Ok ==> final(self).parents() == old(self).parents(),
            r is Ok ==> final(self).texts() == old(self).texts(),
            r is Ok ==> final(self).maps() == old(self).maps(),
            r is Ok ==> final(self).foreign() == old(self).foreign().remove((tid, UID_KEY@)).remove(
                (tid, DATA_KEY@),
            ),
            final(self).sound() == old(self).sound(),
            old(self).sound() && rooted(old(self).parents(), tid) ==> r is Ok,
    {
        proof {
            reveal_strlit("nodes");
        }
        if let Err(e) = loro_meta_set(&mut self.doc, TREE_NAME, tid, UID_KEY, uid) {
            return Err(loro_failure(&e));
        }
        if let Err(e) = loro_meta_set(&mut self.doc, TREE_NAME, tid, DATA_KEY, data) {
            return Err(loro_failure(&e));
        }
        Ok(())
    }

    /// The payload text stored on a node, empty when there is none.
    fn read_raw(&self, tid: TreeID) -> (r: Result<String, UwuCrdtError>)
        ensures
            r matches Err(e) ==> e is Loro,
            r matches Ok(s) ==> s@ == stored_data(self.members(), tid),
            self.parents().contains_key(tid) ==> r is Ok,
    {
        proof {
            reveal_strlit("nodes");
        }
        match loro_meta_get(&self.doc, TREE_NAME, tid, DATA_KEY) {
            Ok(Some(Some(s))) => Ok(s),
            Ok(_) => Ok(String::new()),
            Err(e) => Err(loro_failure(&e)),
        }
    }



    /// Applies one operation without committing (see `op_outcome`,
    /// `op_effect`, `slot_effect`, `foreign_effect`). On a sound document it
    /// succeeds whenever the ids it names are in the index and the document
    /// is ready for it (see `op_ready`).
    pub fn apply(&mut self, op: &UwuOp) -> (r: Result<(), UwuCrdtError>)
        ensures
            op_outcome(old(self).ids(), *op, r, final(self).ids()),
            r is Ok ==> op_effect(
                old(self).ids(),
                old(self).members(),
                old(self).parents(),
                *op,
                final(self).ids(),
                final(self).members(),
                final(self).parents(),
            ),
            r is Ok ==> slot_effect(
                old(self).ids(),
                old(self).members(),
                old(self).parents(),
                old(self).texts(),
                old(self).maps(),
                *op,
                final(self).members(),
                final(self).parents(),
                final(self).texts(),
                final(self).maps(),
            ),
            r is Ok ==> foreign_effect(old(self).ids(), old(self).foreign(), *op, final(self).ids(), final(self).foreign()),
            final(self).sound() == old(self).sound(),
            old(self).sound() && op_fault(old(self).ids().dom(), *op) is None && op_ready(old(self).state(), *op)
                ==> r is Ok,
    {
        proof {
            reveal_strlit("nodes");
            reveal_strlit("uid");
            reveal_strlit("data");
            assert(UID_KEY@.len() == 3 && DATA_KEY@.len() == 4);
        }
        match op {
            UwuOp::Insert { id, parent, after, data } => {
                let parent_tid = match self.parent_of(parent) {
                    Ok(p) => p,
                    Err(e) => return Err(e),
                };
                let ghost ready = old(self).sound() && op_ready(old(self).state(), *op);
                let ghost p0 = self.parents();
                proof {
                    if ready && parent_tid is Some {
                        lemma_rooted_in_parents(p0, parent_tid->0);
                    }
                }
                let tid = match loro_create(&mut self.doc, TREE_NAME, parent_tid) {
                    Ok(t) => t,
                    Err(e) => return Err(loro_failure(&e)),
                };
                let ghost mut v = parent_tid;
                if let Some(a) = after {
                    let after_tid = match self.tree_id(a) {
                        Ok(t) => t,
                        Err(e) => return Err(e),
                    };
                    proof {
                        if ready {
                            lemma_parent_rooted(p0, after_tid);
                            assert(self.parents()[after_tid] == p0[after_tid]);
                            if p0[after_tid] is Some {
                                lemma_fresh_not_under(p0, tid, parent_tid, p0[after_tid]->0);
                            }
                        }
                    }
                    let ghost p1 = self.parents();
                    if let Err(e) = loro_mov_after(&mut self.doc, TREE_NAME, tid, after_tid) {
                        return Err(loro_failure(&e));
                    }
                    proof {
                        v = p1[after_tid];
                        assert(self.parents() =~= p0.insert(tid, v));
                    }
                }
                proof {
                    if ready {
                        if after is Some {
                            lemma_parent_rooted(p0, self.ids()[id_of(*after)]);
                        }
                        lemma_rooted_fresh(p0, tid, v);
                        assert(self.parents() =~= p0.insert(tid, v));
                    }
                }
                if let Err(e) = self.write_meta(tid, id.0.as_str(), data.as_str()) {
                    return Err(e);
                }
                self.node_map.insert(id.0.clone(), tid);
                proof {
                    assert(self.ids() == old(self).ids().insert(id.0@, tid));
                }
                Ok(())
            },
            UwuOp::Update { id, patch } => {
                let tid = match self.tree_id(id) {
                    Ok(t) => t,
                    Err(e) => return Err(e),
                };
                proof {
                    if old(self).sound() && op_ready(old(self).state(), *op) {
                        lemma_rooted_in_parents(self.parents(), tid);
                    }
                }
                let cur = match self.read_raw(tid) {
                    Ok(c) => c,
                    Err(e) => return Err(e),
                };
                let merged = match patch_data(cur.as_str(), patch.as_str()) {
                    Ok(m) => m,
                    Err(m) => return Err(UwuCrdtError::Serialization(m)),
                };
                self.write_meta(tid, id.0.as_str(), merged.as_str())
            },
            UwuOp::Delete { id } => {
                let tid = match self.tree_id(id) {
                    Ok(t) => t,
                    Err(e) => return Err(e),
                };
                if let Err(e) = loro_delete(&mut self.doc, TREE_NAME, tid) {
                    return Err(loro_failure(&e));
                }
                self.node_map.remove(id.0.as_str());
                Ok(())
            },
            UwuOp::Move { id, new_parent, after } => {
                let tid = match self.tree_id(id) {
                    Ok(t) => t,
                    Err(e) => return Err(e),
                };
                let parent_tid = match self.parent_of(new_parent) {
                    Ok(p) => p,
                    Err(e) => return Err(e),
                };
                if let Err(e) = loro_mov(&mut self.doc, TREE_NAME, tid, parent_tid) {
                    return Err(loro_failure(&e));
                }
                if let Some(a) = after {
                    let after_tid = match self.tree_id(a) {
                        Ok(t) => t,
                        Err(e) => return Err(e),
                    };
                    if let Err(e) = loro_mov_after(&mut self.doc, TREE_NAME, tid, after_tid) {
                        return Err(loro_failure(&e));
                    }
                }
                Ok(())
            },
            UwuOp::TextSplice { id, slot, pos, del, insert } => {
                let tid = match self.tree_id(id) {
                    Ok(t) => t,
                    Err(e) => return Err(e),
                };
                match loro_slot_splice(&mut self.doc, TREE_NAME, tid, slot.as_str(), *pos, *del, insert.as_str()) {
                    Ok(_) => Ok(()),
                    Err(e) => Err(loro_failure(&e)),
                }
            },
            UwuOp::MapSet { id, slot, key, value } => {
                let tid = match self.tree_id(id) {
                    Ok(t) => t,
                    Err(e) => return Err(e),
                };
                match loro_slot_map_set(&mut self.doc, TREE_NAME, tid, slot.as_str(), key.as_str(), value.as_str()) {
                    Ok(()) => Ok(()),
                    Err(e) => Err(loro_failure(&e)),
                }
            },
            UwuOp::MapDelete { id, slot, key } => {
                let tid = match self.tree_id(id) {
                    Ok(t) => t,
                    Err(e) => return Err(e),
                };
                match loro_slot_map_delete(&mut self.doc, TREE_NAME, tid, slot.as_str(), key.as_str()) {
                    Ok(()) => Ok(()),
                    Err(e) => Err(loro_failure(&e)),
                }
            },
        }
    }

    /// Applies the operations in order and commits; stops at the first
    /// failure, leaving the index as the operations before it left it. Each
    /// operation that went through had the effect `apply` states (see
    /// `applied_chain`), and the commit changes no state.
    pub fn apply_ops(&mut self, ops: &[UwuOp]) -> (r: Result<(), UwuCrdtError>)
        ensures
            r is Ok ==> final(self).ids().dom() == ops_ids_after(old(self).ids().dom(), ops@),
            r is Ok ==> exists|states: Seq<DocState>|
                applied_chain(states, ops@) && states[0] == old(self).state() && #[trigger] states.last()
                    == final(self).state(),
            r is Err ==> exists|k: int|
                0 <= k < ops@.len() && final(self).ids().dom() == ops_ids_after(
                    old(self).ids().dom(),
                    #[trigger] ops@.take(k),
                ),
            r is Err ==> exists|k: int, states: Seq<DocState>|
                #![trigger applied_chain(states, ops@.take(k))]
                0 <= k < ops@.len() && applied_chain(states, ops@.take(k)) && states[0] == old(self).state()
                    && states.last().0 == final(self).ids(),
            old(self).sound() && ready_in_turn(old(self).state(), ops@) ==> r is Ok,
            final(self).sound() == old(self).sound(),
    {
        let mut i: usize = 0;
        let ghost mut states: Seq<DocState> = seq![self.state()];
        proof {
            assert(ops@.take(0) =~= Seq::<UwuOp>::empty());
        }
        while i < ops.len()
            invariant
                i <= ops.len(),
                self.ids().dom() == ops_ids_after(old(self).ids().dom(), ops@.take(i as int)),
                applied_chain(states, ops@.take(i as int)),
                states[0] == old(self).state(),
                states.last() == self.state(),
                self.sound() == old(self).sound(),
            decreases ops.len() - i,
        {
            proof {
                if old(self).sound() && ready_in_turn(old(self).state(), ops@) {
                    assert(applied_chain(states, ops@.take(i as int)));
                    assert(ops@.take(i as int + 1)[i as int] == ops@[i as int]);
                }
            }
            let ghost before = self.ids();
            let ghost before_state = self.state();
            match self.apply(&ops[i]) {
                Ok(()) => {},
                Err(e) => {
                    proof {
                        assert(op_fault(before.dom(), ops@[i as int]) is None ==> self.ids() == before);
                        assert(self.ids() == before);
                        assert(states.last().0 == self.ids());
                    }
                    return Err(e);
                },
            }
            proof {
                let op = ops@[i as int];
                assert(ops@.take(i as int + 1).drop_last() =~= ops@.take(i as int));
                assert(ops@.take(i as int + 1).last() == op);
                let old_states = states;
                states = states.push(self.state());
                assert(step_holds(before_state, op, self.state()));
                assert forall|j: int| 0 <= j < i + 1 implies step_holds(
                    states[j],
                    #[trigger] ops@.take(i as int + 1)[j],
                    states[j + 1],
                ) by {
                    if j < i {
                        assert(ops@.take(i as int + 1)[j] == ops@.take(i as int)[j]);
                        assert(states[j] == old_states[j] && states[j + 1] == old_states[j + 1]);
                    } else {
                        assert(ops@.take(i as int + 1)[j] == op);
                        assert(states[j] == before_state);
                    }
                }
                match op {
                    UwuOp::Insert { id, .. } => {
                        let t = choose|t: TreeID| self.ids() == before.insert(id.0@, t);
                        assert(self.ids().dom() =~= before.dom().insert(id.0@));
                    },
                    UwuOp::Delete { id } => {
                        assert(self.ids().dom() =~= before.dom().remove(id.0@));
                    },
                    _ => {},
                }
            }
            i = i + 1;
        }
        proof {
            assert(ops@.take(ops.len() as int) =~= ops@);
        }
        loro_commit(&mut self.doc);
        proof {
            assert(meta_strings(self.doc, TREE_NAME@) == states.last().1);
            assert(self.state() == states.last());
        }
        Ok(())
    }

    /// The payload text of a node: `null` when it has none; fails when the
    /// stored text is not JSON.
    pub fn read_data(&self, tid: TreeID) -> (r: Result<String, UwuCrdtError>)
        ensures
            r matches Ok(t) ==> t@ == shown_data(stored_data(self.members(), tid)),
            r matches Ok(t) ==> t@ == "null"@ || json_entries_of(t@) is Ok,
            r matches Err(e) ==> e is Loro || e is Serialization,
            r matches Err(UwuCrdtError::Serialization(m)) ==> stored_data(self.members(), tid).len() > 0
                && json_entries_of(stored_data(self.members(), tid)) == Err::<
                Option<Seq<(Seq<char>, Seq<char>)>>,
                Seq<char>,
            >(m@),
            self.parents().contains_key(tid) && (stored_data(self.members(), tid).len() == 0 || json_entries_of(
                stored_data(self.members(), tid),
            ) is Ok) ==> r is Ok,
    {
        let raw = match self.read_raw(tid) {
            Ok(s) => s,
            Err(e) => return Err(e),
        };
        if raw.unicode_len() == 0 {
            return Ok("null".to_string());
        }
        match json_object_entries(raw.as_str()) {
            Ok(_) => Ok(raw),
            Err(m) => Err(UwuCrdtError::Serialization(m)),
        }
    }

    /// The payload text of the node with external id `id`.
    pub fn get(&self, id: &NodeId) -> (r: Result<String, UwuCrdtError>)
        ensures
            !self.ids().contains_key(id.0@) <==> (r matches Err(UwuCrdtError::NodeNotFound(m))
                && m@ == id.0@),
            r matches Ok(t) ==> t@ == shown_data(stored_data(self.members(), self.ids()[id.0@])),
            r matches Ok(t) ==> t@ == "null"@ || json_entries_of(t@) is Ok,
            r matches Err(UwuCrdtError::Serialization(m)) ==> json_entries_of(
                stored_data(self.members(), self.ids()[id.0@]),
            ) == Err::<Option<Seq<(Seq<char>, Seq<char>)>>, Seq<char>>(m@),
            self.ids().contains_key(id.0@) && self.parents().contains_key(self.ids()[id.0@]) && (stored_data(
                self.members(),
                self.ids()[id.0@],
            ).len() == 0 || json_entries_of(stored_data(self.members(), self.ids()[id.0@])) is Ok) ==> r is Ok,
    {
        let tid = match self.tree_id(id) {
            Ok(t) => t,
            Err(e) => return Err(e),
        };
        self.read_data(tid)
    }

    /// The text container `slot` of a node (empty when nothing reached it);
    /// read on a sound document from an alive node with an open slot, it
    /// succeeds.
    pub fn read_text(&mut self, id: &NodeId, slot: &str) -> (r: Result<String, UwuCrdtError>)
        ensures
            final(self).ids() == old(self).ids(),
            !old(self).ids().contains_key(id.0@) <==> (r matches Err(UwuCrdtError::NodeNotFound(m))
                && m@ == id.0@),
            r matches Ok(t) ==> t@ == text_at(old(self).texts(), old(self).ids()[id.0@], slot@),
            r matches Err(e) ==> e is NodeNotFound || e is Loro,
            r is Ok ==> final(self).members() == old(self).members() && final(self).parents()
                == old(self).parents() && final(self).texts() == old(self).texts() && final(self).maps()
                == old(self).maps(),
            old(self).sound() && old(self).ids().contains_key(id.0@) && rooted(
                old(self).parents(),
                old(self).ids()[id.0@],
            ) && slot_open(old(self).members(), old(self).foreign(), old(self).ids()[id.0@], slot@) ==> r is Ok,
            final(self).sound() == old(self).sound(),
            r is Ok ==> final(self).foreign() == old(self).foreign(),
    {
        proof {
            reveal_strlit("nodes");
        }
        let tid = match self.tree_id(id) {
            Ok(t) => t,
            Err(e) => return Err(e),
        };
        match loro_slot_text(&mut self.doc, TREE_NAME, tid, slot) {
            Ok(t) => Ok(t),
            Err(e) => Err(loro_failure(&e)),
        }
    }

    /// The members of the map container `slot` of a node whose values are
    /// strings that read as JSON, in the container's order; succeeds on the
    /// same condition as `read_text`.
    pub fn read_map(&mut self, id: &NodeId, slot: &str) -> (r: Result<Vec<(String, String)>, UwuCrdtError>)
        ensures
            final(self).ids() == old(self).ids(),
            !old(self).ids().contains_key(id.0@) <==> (r matches Err(UwuCrdtError::NodeNotFound(m))
                && m@ == id.0@),
            r matches Ok(v) ==> exists|es: Seq<(String, Option<String>)>|
                lists_members(es, map_at(old(self).maps(), old(self).ids()[id.0@], slot@)) && pair_views(v@)
                    == #[trigger] json_members(es),
            r matches Err(e) ==> e is NodeNotFound || e is Loro,
            r is Ok ==> final(self).members() == old(self).members() && final(self).parents()
                == old(self).parents() && final(self).texts() == old(self).texts() && final(self).maps()
                == old(self).maps(),
            old(self).sound() && old(self).ids().contains_key(id.0@) && rooted(
                old(self).parents(),
                old(self).ids()[id.0@],
            ) && slot_open(old(self).members(), old(self).foreign(), old(self).ids()[id.0@], slot@) ==> r is Ok,
            final(self).sound() == old(self).sound(),
            r is Ok ==> final(self).foreign() == old(self).foreign(),
    {
        proof {
            reveal_strlit("nodes");
        }
        let tid = match self.tree_id(id) {
            Ok(t) => t,
            Err(e) => return Err(e),
        };
        let es = match loro_slot_map_entries(&mut self.doc, TREE_NAME, tid, slot) {
            Ok(v) => v,
            Err(e) => return Err(loro_failure(&e)),
        };
        let kept = keep_json_members(&es);
        Ok(kept)
    }

    /// The number of live nodes in the index.
    pub fn len(&self) -> (n: usize)
        ensures
            n == self.ids().len(),
    {
        self.node_map.len()
    }

    /// Whether the index is empty.
    pub fn is_empty(&self) -> (b: bool)
        ensures
            b == (self.ids().len() == 0),
    {
        self.node_map.len() == 0
    }

    /// Merges bytes exported by another replica, then rebuilds the index
    /// from the `uid` metadata of the live nodes. A failed import leaves the
    /// index as it was.
    pub fn import(&mut self, bytes: &[u8]) -> (r: Result<(), UwuCrdtError>)
        ensures
            r is Err ==> final(self).ids() == old(self).ids() && r matches Err(
                UwuCrdtError::Loro(_),
            ),
            r is Ok ==> exists|rows: Seq<(TreeID, String)>|
                index_rows(rows, final(self).parents(), final(self).members()) && final(self).ids()
                    == #[trigger] uid_map(rows),
            r is Ok && old(self).blank() ==> final(self).same_as_import(bytes@),
            old(self).blank() && old(self).sound() && importable(bytes@) ==> r is Ok,
            r is Ok && old(self).sound() && importable(bytes@) ==> final(self).sound(),
    {
        if let Err(e) = loro_import(&mut self.doc, bytes) {
            return Err(loro_failure(&e));
        }
        self.rebuild_map();
        Ok(())
    }

    /// Rebuilds the index from the `uid` members of the live nodes (see
    /// `index_rows`); the document itself is not changed.
    fn rebuild_map(&mut self)
        ensures
            exists|rows: Seq<(TreeID, String)>|
                index_rows(rows, final(self).parents(), final(self).members()) && final(self).ids()
                    == #[trigger] uid_map(rows),
            final(self).members() == old(self).members(),
            final(self).parents() == old(self).parents(),
            final(self).texts() == old(self).texts(),
            final(self).maps() == old(self).maps(),
            final(self).doc == old(self).doc,
    {
        proof {
            reveal_strlit("nodes");
        }
        let ghost parents = self.parents();
        let ghost members = self.members();
        let nodes = loro_nodes(&self.doc, TREE_NAME);
        let mut rows: Vec<(TreeID, String)> = Vec::new();
        let mut i: usize = 0;
        while i < nodes.len()
            invariant
                i <= nodes.len(),
                parents == self.parents(),
                members == self.members(),
                plain_root_name(TREE_NAME@),
                nodes@.no_duplicates(),
                forall|t: TreeID| parents.contains_key(t) ==> nodes@.contains(t),
                forall|a: int, b: int| 0 <= a < b < rows@.len() ==> rows@[a].0 != rows@[b].0,
                forall|a: int| 0 <= a < rows@.len() ==> exists|j: int| 0 <= j < i && nodes@[j] == #[trigger] rows@[a].0,
                forall|a: int| 0 <= a < rows@.len() ==> row_valid(#[trigger] rows@[a], parents, members),
                forall|j: int|
                    0 <= j < i && rooted(parents, #[trigger] nodes@[j]) && members.contains_key((nodes@[j], UID_KEY@))
                        ==> exists|a: int| 0 <= a < rows@.len() && rows@[a].0 == nodes@[j],
            decreases nodes.len() - i,
        {
            let tid = nodes[i];
            let del_state = loro_is_node_deleted(&self.doc, TREE_NAME, tid);
            let deleted = match del_state {
                Ok(b) => b,
                Err(_) => true,
            };
            let ghost before = rows@;
            if !deleted {
                let uid_state = loro_meta_get(&self.doc, TREE_NAME, tid, UID_KEY);
                proof {
                    assert(rooted(parents, tid));
                    lemma_rooted_in_parents(parents, tid);
                }
                if let Ok(Some(Some(uid))) = uid_state {
                    rows.push((tid, uid));
                    proof {
                        assert forall|a: int| 0 <= a < before.len() implies before[a].0 != tid by {
                            let j = choose|j: int| 0 <= j < i && nodes@[j] == before[a].0;
                            assert(nodes@[j] != nodes@[i as int]);
                        }
                        assert(rows@[before.len() as int].0 == nodes@[i as int]);
                    }
                } else {
                    proof {
                        assert(!members.contains_key((tid, UID_KEY@)));
                    }
                }
            } else {
                proof {
                    assert(!rooted(parents, tid));
                }
            }
            proof {
                assert forall|j: int|
                    0 <= j < i + 1 && rooted(parents, #[trigger] nodes@[j]) && members.contains_key((nodes@[j], UID_KEY@))
                        implies exists|a: int| 0 <= a < rows@.len() && rows@[a].0 == nodes@[j] by {
                    if j < i {
                        let a = choose|a: int| 0 <= a < before.len() && before[a].0 == nodes@[j];
                        assert(rows@[a] == before[a]);
                    } else {
                        assert(rows@[before.len() as int].0 == nodes@[j]);
                    }
                }
            }
            i = i + 1;
        }
        proof {
            assert forall|t: TreeID| rooted(parents, t) && members.contains_key((t, UID_KEY@)) implies exists|a: int|
                0 <= a < rows@.len() && rows@[a].0 == t by {
                lemma_rooted_in_parents(parents, t);
                let j = choose|j: int| 0 <= j < nodes@.len() && nodes@[j] == t;
                assert(rooted(parents, nodes@[j]));
            }
        }
        self.node_map = uid_index(&rows);
        proof {
            assert(self.ids() == uid_map(rows@));
            assert(index_rows(rows@, self.parents(), self.members()));
        }
    }

    /// A full snapshot (history and state).
    pub fn export_snapshot(&self) -> (r: Result<Vec<u8>, UwuCrdtError>)
        ensures
            r matches Err(e) ==> e is Loro,
            r matches Ok(b) ==> self.same_as_import(b@),
            self.sound() ==> r is Ok,
            self.sound() ==> (r matches Ok(b) ==> importable(b@)),
    {
        match loro_export_snapshot(&self.doc) {
            Ok(b) => Ok(b),
            Err(e) => Err(UwuCrdtError::Loro(loro_encode_error_text(&e))),
        }
    }

    /// The operations since the encoded version `since` (all of them for
    /// `None`).
    pub fn export_updates(&self, since: Option<&[u8]>) -> (r: Result<Vec<u8>, UwuCrdtError>)
        ensures
            r matches Err(e) ==> e is Loro,
            since is None ==> (r matches Ok(b) ==> self.same_as_import(b@)),
            since is None && self.sound() ==> r is Ok,
            since is None && self.sound() ==> (r matches Ok(b) ==> importable(b@)),
    {
        match loro_export_updates(&self.doc, since) {
            Ok(b) => Ok(b),
            Err(m) => Err(UwuCrdtError::Loro(m)),
        }
    }

    /// The encoded version of the operation log.
    pub fn version(&self) -> (r: Vec<u8>) {
        loro_version(&self.doc)
    }
}

/// Replicas converge through a snapshot: a new replica that imports the
/// snapshot (or all the updates) another replica exported holds the same
/// tree, payloads, slot texts and slot maps, so a read of any node gives the
/// same result on both.
pub proof fn replica_from_snapshot_converges(exporter: UwuCrdtDoc, replica: UwuCrdtDoc, bytes: Seq<u8>)
    requires
        exporter.same_as_import(bytes),
        replica.same_as_import(bytes),
    ensures
        replica.members() == exporter.members(),
        replica.parents() == exporter.parents(),
        replica.texts() == exporter.texts(),
        replica.maps() == exporter.maps(),
        replica.foreign() == exporter.foreign(),
{
    let t = TREE_NAME@;
    assert(meta_strings(replica.doc, t) == imported_strings(bytes, t));
    assert(meta_strings(exporter.doc, t) == imported_strings(bytes, t));
}

} // verus!
