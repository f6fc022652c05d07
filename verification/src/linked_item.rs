//! A doubly linked list of kitty indices per account, stored node by node in
//! a map keyed by `(account, Option<index>)`. The `None` entry of an account is
//! the list's head: its `prev` is the last value and its `next` the first one.
use std::collections::HashMap;
use vstd::prelude::*;

verus! {

broadcast use vstd::std_specs::hash::group_hash_axioms;

/// One node of a stored linked list.
#[derive(Clone, Copy, PartialEq, Eq, Debug)]
pub struct LinkedItem<Value> {
    pub prev: Option<Value>,
    pub next: Option<Value>,
}

/// The node that a missing entry reads as.
pub open spec fn unlinked() -> LinkedItem<u32> {
    LinkedItem { prev: None, next: None }
}

/// The stored nodes of one account: the head entry and the value entries.
#[verifier::ext_equal]
pub struct ListNodes {
    pub head: Option<LinkedItem<u32>>,
    pub items: Map<u32, LinkedItem<u32>>,
}

/// The nodes of an account on which nothing was ever written.
pub open spec fn no_nodes() -> ListNodes {
    ListNodes { head: None, items: Map::empty() }
}

/// The stored entry for `key` (`None` is the head), if there is one.
pub open spec fn node_entry(n: ListNodes, key: Option<u32>) -> Option<LinkedItem<u32>> {
    match key {
        None => n.head,
        Some(v) => if n.items.contains_key(v) {
            Some(n.items[v])
        } else {
            None
        },
    }
}

/// What reading `key` gives: the stored entry, or an unlinked node.
pub open spec fn read_node(n: ListNodes, key: Option<u32>) -> LinkedItem<u32> {
    match node_entry(n, key) {
        Some(item) => item,
        None => unlinked(),
    }
}

/// The nodes after storing `item` under `key`.
pub open spec fn write_node(n: ListNodes, key: Option<u32>, item: LinkedItem<u32>) -> ListNodes {
    match key {
        None => ListNodes { head: Some(item), items: n.items },
        Some(v) => ListNodes { head: n.head, items: n.items.insert(v, item) },
    }
}

/// The three writes of an append: the head now ends at `value`, the old last
/// node points on to `value`, and `value` gets a node after the old last one.
pub open spec fn appended(n: ListNodes, value: u32) -> ListNodes {
    let head = read_node(n, None);
    let n1 = write_node(n, None, LinkedItem { prev: Some(value), next: head.next });
    let prev = read_node(n1, head.prev);
    let n2 = write_node(n1, head.prev, LinkedItem { prev: prev.prev, next: Some(value) });
    write_node(n2, Some(value), LinkedItem { prev: head.prev, next: None })
}

/// The writes of a removal: the node of `value` is taken out and its two
/// neighbours (the head standing for a missing one) are linked to each other.
/// Nothing changes when `value` has no node.
pub open spec fn removed(n: ListNodes, value: u32) -> ListNodes {
    if n.items.contains_key(value) {
        let item = n.items[value];
        let n0 = ListNodes { head: n.head, items: n.items.remove(value) };
        let prev = read_node(n0, item.prev);
        let n1 = write_node(n0, item.prev, LinkedItem { prev: prev.prev, next: item.next });
        let next = read_node(n1, item.next);
        write_node(n1, item.next, LinkedItem { prev: item.prev, next: next.next })
    } else {
        n
    }
}

/// `s` without the value `v` (unchanged where `v` does not occur).
pub open spec fn without(s: Seq<u32>, v: u32) -> Seq<u32> {
    if s.contains(v) {
        s.remove(s.index_of(v))
    } else {
        s
    }
}

/// In a sequence without duplicates, removing `v` leaves exactly the other values.
pub proof fn lemma_without_contains(s: Seq<u32>, v: u32, x: u32)
    requires
        s.no_duplicates(),
    ensures
        without(s, v).contains(x) <==> (s.contains(x) && x != v),
        without(s, v).no_duplicates(),
{
    if s.contains(v) {
        let i = s.index_of(v);
        let t = s.remove(i);
        assert(forall|j: int| 0 <= j < i ==> #[trigger] t[j] == s[j]);
        assert(forall|j: int| i <= j < t.len() ==> #[trigger] t[j] == s[j + 1]);
        if t.contains(x) {
            let j = choose|j: int| 0 <= j < t.len() && t[j] == x;
            if j < i {
                assert(s[j] == x);
            } else {
                assert(s[j + 1] == x);
            }
        }
        if s.contains(x) && x != v {
            let j = choose|j: int| 0 <= j < s.len() && s[j] == x;
            if j < i {
                assert(t[j] == x);
            } else {
                assert(j != i);
                assert(t[j - 1] == x);
            }
        }
        assert forall|a: int, b: int|
            0 <= a < t.len() && 0 <= b < t.len() && a != b implies t[a] != t[b] by {
            let a1 = if a < i { a } else { a + 1 };
            let b1 = if b < i { b } else { b + 1 };
            assert(t[a] == s[a1]);
            assert(t[b] == s[b1]);
        }
    }
}

/// The first value of a sequence, if any.
pub open spec fn first_of(s: Seq<u32>) -> Option<u32> {
    if s.len() == 0 {
        None
    } else {
        Some(s[0])
    }
}

/// The last value of a sequence, if any.
pub open spec fn last_of(s: Seq<u32>) -> Option<u32> {
    if s.len() == 0 {
        None
    } else {
        Some(s[s.len() - 1])
    }
}

/// The node that the value at position `i` of `s` has in a list holding `s`.
pub open spec fn link_at(s: Seq<u32>, i: int) -> LinkedItem<u32> {
    LinkedItem {
        prev: if i == 0 {
            None
        } else {
            Some(s[i - 1])
        },
        next: if i + 1 == s.len() {
            None
        } else {
            Some(s[i + 1])
        },
    }
}

/// `n` stores exactly the list `s` of distinct values, in order.
pub open spec fn well_linked(n: ListNodes, s: Seq<u32>) -> bool {
    &&& s.no_duplicates()
    &&& read_node(n, None) == (LinkedItem { prev: last_of(s), next: first_of(s) })
    &&& forall|i: int|
        #![trigger s[i]]
        0 <= i < s.len() ==> n.items.contains_key(s[i]) && n.items[s[i]] == link_at(s, i)
    &&& forall|k: u32| #[trigger] n.items.contains_key(k) ==> s.contains(k)
}

/// Appending a value that the list does not hold yet adds it at the end.
pub proof fn lemma_append_links(n: ListNodes, s: Seq<u32>, value: u32)
    requires
        well_linked(n, s),
        !s.contains(value),
    ensures
        well_linked(appended(n, value), s.push(value)),
{
    let t = s.push(value);
    let r = appended(n, value);
    let len = s.len();
    assert(forall|i: int| 0 <= i < len ==> #[trigger] t[i] == s[i]);
    assert(t[len as int] == value);
    if len == 0 {
        assert forall|k: u32| #[trigger] r.items.contains_key(k) implies t.contains(k) by {
            if k != value {
                assert(n.items.contains_key(k));
                assert(s.contains(k));
            }
            assert(t[0] == value);
        }
    } else {
        let last = s[len - 1];
        assert(n.items.contains_key(last));
        assert(last != value);
        assert forall|i: int| 0 <= i < t.len() implies #[trigger] r.items.contains_key(t[i])
            && r.items[t[i]] == link_at(t, i) by {
            if i < len - 1 {
                assert(s[i] != last);
                assert(s[i] != value);
                assert(n.items[s[i]] == link_at(s, i));
            } else if i == len - 1 {
                assert(n.items[s[i]] == link_at(s, i));
            }
        }
        assert forall|k: u32| #[trigger] r.items.contains_key(k) implies t.contains(k) by {
            if k != value && k != last {
                assert(n.items.contains_key(k));
                let j = choose|j: int| 0 <= j < s.len() && s[j] == k;
                assert(t[j] == k);
            } else if k == value {
                assert(t[len as int] == k);
            } else {
                assert(t[len - 1] == k);
            }
        }
    }
    assert forall|i: int, j: int|
        0 <= i < t.len() && 0 <= j < t.len() && i != j implies t[i] != t[j] by {
        if i < len && j < len {
        } else if i < len {
            assert(s.contains(s[i]));
        } else {
            assert(s.contains(s[j]));
        }
    }
}

/// Removing a value takes it out of the list; a value that the list does not
/// hold leaves it as it was.
pub proof fn lemma_remove_links(n: ListNodes, s: Seq<u32>, value: u32)
    requires
        well_linked(n, s),
    ensures
        well_linked(removed(n, value), without(s, value)),
{
    if s.contains(value) {
        lemma_remove_present(n, s, value);
    } else if n.items.contains_key(value) {
        assert(s.contains(value));
    }
}

proof fn lemma_remove_present(n: ListNodes, s: Seq<u32>, value: u32)
    requires
        well_linked(n, s),
        s.contains(value),
    ensures
        well_linked(removed(n, value), s.remove(s.index_of(value))),
{
    let i = s.index_of(value);
    let len = s.len();
    let t = s.remove(i);
    let r = removed(n, value);
    assert(s[i] == value);
    assert(n.items.contains_key(value));
    assert(n.items[value] == link_at(s, i));
    assert(t.len() == len - 1);
    assert(forall|j: int| 0 <= j < i ==> #[trigger] t[j] == s[j]);
    assert(forall|j: int| i <= j < len - 1 ==> #[trigger] t[j] == s[j + 1]);
    if i > 0 {
        assert(s[i - 1] != value);
        assert(n.items[s[i - 1]] == link_at(s, i - 1));
    }
    if i + 1 < len {
        assert(s[i + 1] != value);
        assert(n.items[s[i + 1]] == link_at(s, i + 1));
    }
    if i > 0 && i + 1 < len {
        assert(s[i - 1] != s[i + 1]);
    }
    assert forall|j: int| 0 <= j < t.len() implies #[trigger] r.items.contains_key(t[j])
        && r.items[t[j]] == link_at(t, j) by {
        if j < i {
            assert(s[j] != value);
            assert(n.items[s[j]] == link_at(s, j));
            if j + 1 < i {
                assert(s[j] != s[i - 1]);
            }
            if i + 1 < len {
                assert(s[j] != s[i + 1]);
            }
        } else {
            assert(s[j + 1] != value);
            assert(n.items[s[j + 1]] == link_at(s, j + 1));
            if i > 0 {
                assert(s[j + 1] != s[i - 1]);
            }
            if j > i {
                assert(s[j + 1] != s[i + 1]);
            }
        }
    }
    assert forall|k: u32| #[trigger] r.items.contains_key(k) implies t.contains(k) by {
        assert(k != value);
        assert(n.items.contains_key(k));
        let j = choose|j: int| 0 <= j < s.len() && s[j] == k;
        if j < i {
            assert(t[j] == k);
        } else {
            assert(j != i);
            assert(t[j - 1] == k);
        }
    }
    assert forall|a: int, b: int|
        0 <= a < t.len() && 0 <= b < t.len() && a != b implies t[a] != t[b] by {
        let a1 = if a < i { a } else { a + 1 };
        let b1 = if b < i { b } else { b + 1 };
        assert(t[a] == s[a1]);
        assert(t[b] == s[b1]);
    }
}

/// Removing a value just appended to a list gives the list back.
pub proof fn lemma_append_then_remove(n: ListNodes, s: Seq<u32>, value: u32)
    requires
        well_linked(n, s),
        !s.contains(value),
    ensures
        without(s.push(value), value) == s,
        well_linked(removed(appended(n, value), value), s),
{
    let t = s.push(value);
    assert(t[s.len() as int] == value);
    assert(t.contains(value));
    let i = t.index_of(value);
    if i != s.len() {
        assert(s[i] == value);
    }
    assert(t.remove(i) =~= s);
    lemma_append_links(n, s, value);
    lemma_remove_links(appended(n, value), t, value);
}

/// The stored nodes of one account.
pub struct AccountNodes {
    head: Option<LinkedItem<u32>>,
    items: HashMap<u32, LinkedItem<u32>>,
}

impl View for AccountNodes {
    type V = ListNodes;

    closed spec fn view(&self) -> ListNodes {
        ListNodes { head: self.head, items: self.items@ }
    }
}

impl AccountNodes {
    fn empty() -> (r: AccountNodes)
        ensures
            r@ == no_nodes(),
    {
        let r = AccountNodes { head: None, items: HashMap::new() };
        assert(r@ =~= no_nodes());
        r
    }

    fn entry(&self, key: Option<u32>) -> (r: Option<LinkedItem<u32>>)
        ensures
            r == node_entry(self@, key),
    {
        match key {
            None => self.head,
            Some(v) => match self.items.get(&v) {
                Some(item) => Some(*item),
                None => None,
            },
        }
    }

    fn read(&self, key: Option<u32>) -> (r: LinkedItem<u32>)
        ensures
            r == read_node(self@, key),
    {
        match self.entry(key) {
            Some(item) => item,
            None => LinkedItem { prev: None, next: None },
        }
    }

    fn write(&mut self, key: Option<u32>, item: LinkedItem<u32>)
        ensures
            final(self)@ == write_node(old(self)@, key, item),
    {
        match key {
            None => {
                self.head = Some(item);
            },
            Some(v) => {
                self.items.insert(v, item);
            },
        }
        assert(self@ =~= write_node(old(self)@, key, item));
    }

    fn append(&mut self, value: u32)
        ensures
            final(self)@ == appended(old(self)@, value),
    {
        let head = self.read(None);
        let new_head = LinkedItem { prev: Some(value), next: head.next };
        self.write(None, new_head);
        let prev = self.read(head.prev);
        let new_prev = LinkedItem { prev: prev.prev, next: Some(value) };
        self.write(head.prev, new_prev);
        let item = LinkedItem { prev: head.prev, next: None };
        self.write(Some(value), item);
    }

    fn remove(&mut self, value: u32)
        ensures
            final(self)@ == removed(old(self)@, value),
    {
        if let Some(item) = self.items.remove(&value) {
            let prev = self.read(item.prev);
            let new_prev = LinkedItem { prev: prev.prev, next: item.next };
            self.write(item.prev, new_prev);
            let next = self.read(item.next);
            let new_next = LinkedItem { prev: item.prev, next: next.next };
            self.write(item.next, new_next);
        }
    }
}

/// The linked lists of all accounts (the map `(account, Option<index>) => node`),
/// with the sequence each account's list stands for.
pub struct LinkedList {
    accounts: HashMap<u64, AccountNodes>,
    lists: Ghost<Map<u64, Seq<u32>>>,
}

impl LinkedList {
    /// The stored nodes of `account`.
    pub closed spec fn nodes(&self, account: u64) -> ListNodes {
        if self.accounts@.contains_key(account) {
            self.accounts@[account]@
        } else {
            no_nodes()
        }
    }

    /// The values that the list of `account` holds, first to last.
    pub closed spec fn values(&self, account: u64) -> Seq<u32> {
        if self.lists@.contains_key(account) {
            self.lists@[account]
        } else {
            Seq::empty()
        }
    }

    /// Every account's nodes link up its values.
    pub open spec fn wf(&self) -> bool {
        forall|a: u64| #[trigger] well_linked(self.nodes(a), self.values(a))
    }

    /// Lists with no nodes stored.
    pub fn new() -> (r: LinkedList)
        ensures
            r.wf(),
            forall|a: u64| #[trigger] r.nodes(a) == no_nodes(),
            forall|a: u64| #[trigger] r.values(a) == Seq::<u32>::empty(),
    {
        let r = LinkedList { accounts: HashMap::new(), lists: Ghost(Map::empty()) };
        assert forall|a: u64| #[trigger] well_linked(r.nodes(a), r.values(a)) by {
            assert(r.nodes(a) == no_nodes());
            assert(r.values(a) =~= Seq::<u32>::empty());
        }
        r
    }

    /// The stored node of `(account, key)`.
    pub fn get(&self, account: u64, key: Option<u32>) -> (r: Option<LinkedItem<u32>>)
        ensures
            r == node_entry(self.nodes(account), key),
    {
        match self.accounts.get(&account) {
            Some(nodes) => nodes.entry(key),
            None => {
                assert(self.nodes(account) == no_nodes());
                None
            },
        }
    }

    /// Whether `(account, Some(value))` has a stored node.
    pub fn contains_key(&self, account: u64, value: u32) -> (r: bool)
        ensures
            r == node_entry(self.nodes(account), Some(value)).is_some(),
            self.wf() ==> (r == self.values(account).contains(value)),
    {
        let r = self.get(account, Some(value)).is_some();
        proof {
            if self.wf() {
                assert(well_linked(self.nodes(account), self.values(account)));
                if self.values(account).contains(value) {
                    let j = choose|j: int|
                        0 <= j < self.values(account).len() && self.values(account)[j] == value;
                    assert(self.nodes(account).items.contains_key(self.values(account)[j]));
                }
            }
        }
        r
    }

    fn take_account(&mut self, account: u64) -> (r: AccountNodes)
        ensures
            r@ == old(self).nodes(account),
            final(self).accounts@ == old(self).accounts@.remove(account),
            final(self).lists == old(self).lists,
    {
        match self.accounts.remove(&account) {
            Some(nodes) => nodes,
            None => AccountNodes::empty(),
        }
    }

    /// Adds `value` at the end of the list of `account`.
    pub fn append(&mut self, account: u64, value: u32)
        ensures
            final(self).nodes(account) == appended(old(self).nodes(account), value),
            forall|a: u64| a != account ==> #[trigger] final(self).nodes(a) == old(self).nodes(a),
            forall|a: u64| a != account ==> #[trigger] final(self).values(a) == old(self).values(a),
            final(self).values(account) == old(self).values(account).push(value),
            old(self).wf() && !old(self).values(account).contains(value) ==> final(self).wf(),
    {
        let ghost old_self = *self;
        let mut nodes = self.take_account(account);
        nodes.append(value);
        self.accounts.insert(account, nodes);
        self.lists = Ghost(self.lists@.insert(account, old_self.values(account).push(value)));
        proof {
            assert forall|a: u64| a != account implies #[trigger] self.nodes(a) == old_self.nodes(a)
                && self.values(a) == old_self.values(a) by {}
            if old_self.wf() && !old_self.values(account).contains(value) {
                assert forall|a: u64| #[trigger] well_linked(self.nodes(a), self.values(a)) by {
                    assert(well_linked(old_self.nodes(a), old_self.values(a)));
                    if a == account {
                        lemma_append_links(old_self.nodes(a), old_self.values(a), value);
                    } else {
                        assert(self.nodes(a) == old_self.nodes(a));
                    }
                }
            }
        }
    }

    /// Takes `value` out of the list of `account`, linking its neighbours.
    pub fn remove(&mut self, account: u64, value: u32)
        ensures
            final(self).nodes(account) == removed(old(self).nodes(account), value),
            forall|a: u64| a != account ==> #[trigger] final(self).nodes(a) == old(self).nodes(a),
            forall|a: u64| a != account ==> #[trigger] final(self).values(a) == old(self).values(a),
            final(self).values(account) == without(old(self).values(account), value),
            old(self).wf() ==> final(self).wf(),
    {
        let ghost old_self = *self;
        let ghost s = old_self.values(account);
        let ghost new_s = without(s, value);
        let mut nodes = self.take_account(account);
        nodes.remove(value);
        self.accounts.insert(account, nodes);
        self.lists = Ghost(self.lists@.insert(account, new_s));
        proof {
            assert forall|a: u64| a != account implies #[trigger] self.nodes(a) == old_self.nodes(a)
                && self.values(a) == old_self.values(a) by {}
            if old_self.wf() {
                assert forall|a: u64| #[trigger] well_linked(self.nodes(a), self.values(a)) by {
                    assert(well_linked(old_self.nodes(a), old_self.values(a)));
                    if a == account {
                        lemma_remove_links(old_self.nodes(a), old_self.values(a), value);
                    } else {
                        assert(self.nodes(a) == old_self.nodes(a));
                    }
                }
            }
        }
    }
}

} // verus!
