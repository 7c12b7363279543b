use vstd::prelude::*;

verus! {

/// A parsed configuration value: a scalar, an ordered array, or a table of
/// named entries. A table read from a document holds each key once
/// (`keys_unique`); lookups take the first entry of a key.
#[derive(Debug, PartialEq)]
pub enum Tree {
    Str(String),
    Int(i64),
    Bool(bool),
    /// Any other scalar (a float, a date), kept as its source text.
    Other(String),
    Array(Vec<Tree>),
    Table(Vec<(String, Tree)>),
}

/// The mathematical model of a [`Tree`].
pub enum TreeV {
    Str(Seq<char>),
    Int(int),
    Bool(bool),
    Other(Seq<char>),
    Array(Seq<TreeV>),
    Table(Seq<(Seq<char>, TreeV)>),
}

impl Tree {
    pub open spec fn view(self) -> TreeV
        decreases self,
    {
        match self {
            Tree::Str(s) => TreeV::Str(s@),
            Tree::Int(i) => TreeV::Int(i as int),
            Tree::Bool(b) => TreeV::Bool(b),
            Tree::Other(s) => TreeV::Other(s@),
            Tree::Array(items) => TreeV::Array(
                Seq::new(
                    items@.len(),
                    |i: int|
                        if 0 <= i < items@.len() {
                            items@[i].view()
                        } else {
                            TreeV::Bool(false)
                        },
                ),
            ),
            Tree::Table(entries) => TreeV::Table(
                Seq::new(
                    entries@.len(),
                    |i: int|
                        if 0 <= i < entries@.len() {
                            (entries@[i].0@, entries@[i].1.view())
                        } else {
                            (Seq::empty(), TreeV::Bool(false))
                        },
                ),
            ),
        }
    }
}

/// The models of a sequence of trees.
pub open spec fn items_view(s: Seq<Tree>) -> Seq<TreeV> {
    s.map_values(|t: Tree| t@)
}

/// The models of a sequence of table entries.
pub open spec fn entries_view(s: Seq<(String, Tree)>) -> Seq<(Seq<char>, TreeV)> {
    s.map_values(|e: (String, Tree)| (e.0@, e.1@))
}

/// `i` is the first position of key `k` in `entries`.
pub open spec fn is_first_key(entries: Seq<(Seq<char>, TreeV)>, k: Seq<char>, i: int) -> bool {
    &&& 0 <= i < entries.len()
    &&& entries[i].0 == k
    &&& forall|j: int| 0 <= j < i ==> entries[j].0 != k
}

/// The position of key `k` in a table, if it has one.
pub open spec fn key_index(entries: Seq<(Seq<char>, TreeV)>, k: Seq<char>) -> Option<int> {
    if exists|i: int| is_first_key(entries, k, i) {
        Some(choose|i: int| is_first_key(entries, k, i))
    } else {
        None
    }
}

/// The value stored under key `k` in a table.
pub open spec fn table_get(entries: Seq<(Seq<char>, TreeV)>, k: Seq<char>) -> Option<TreeV> {
    match key_index(entries, k) {
        Some(i) => Some(entries[i].1),
        None => None,
    }
}

/// Each key of the table occurs once.
pub open spec fn keys_unique(entries: Seq<(Seq<char>, TreeV)>) -> bool {
    forall|i: int, j: int|
        0 <= i < entries.len() && 0 <= j < entries.len() && i != j ==> entries[i].0 != entries[j].0
}

/// The identity of an array item: the string under `name`, when the item is a
/// table that has one.
pub open spec fn name_of(t: TreeV) -> Option<Seq<char>> {
    match t {
        TreeV::Table(entries) => match table_get(entries, seq!['n', 'a', 'm', 'e']) {
            Some(TreeV::Str(s)) => Some(s),
            _ => None,
        },
        _ => None,
    }
}

/// `i` is the first item of `items` whose name is `n`.
pub open spec fn is_first_named(items: Seq<TreeV>, n: Seq<char>, i: int) -> bool {
    &&& 0 <= i < items.len()
    &&& name_of(items[i]) == Some(n)
    &&& forall|j: int| 0 <= j < i ==> name_of(items[j]) != Some(n)
}

/// The position of the item of `items` that `t` overrides: the first one that
/// carries the same name, if `t` has a name.
pub open spec fn named_index(items: Seq<TreeV>, t: TreeV) -> Option<int> {
    match name_of(t) {
        Some(n) => if exists|i: int| is_first_named(items, n, i) {
            Some(choose|i: int| is_first_named(items, n, i))
        } else {
            None
        },
        None => None,
    }
}

/// Merges `right` over `left`, descending into containers of the same shape
/// while `depth` lasts; everywhere else `right` wins.
pub open spec fn merge_spec(left: TreeV, right: TreeV, depth: nat) -> TreeV
    decreases depth, 1nat, 0nat,
{
    if depth == 0 {
        right
    } else {
        match (left, right) {
            (TreeV::Array(ls), TreeV::Array(rs)) => TreeV::Array(
                merge_items_spec(ls, rs, (depth - 1) as nat),
            ),
            (TreeV::Table(ls), TreeV::Table(rs)) => TreeV::Table(
                merge_entries_spec(ls, rs, (depth - 1) as nat),
            ),
            _ => right,
        }
    }
}

/// Array reconciliation: each item of `right`, in order, either replaces and
/// merges with the first item of `left` of the same name (moving it to the
/// end) or is appended.
pub open spec fn merge_items_spec(left: Seq<TreeV>, right: Seq<TreeV>, sub: nat) -> Seq<TreeV>
    decreases sub, 2nat, right.len(),
{
    if right.len() == 0 {
        left
    } else {
        let rv = right[0];
        let next = match named_index(left, rv) {
            Some(p) => left.remove(p).push(merge_spec(left[p], rv, sub)),
            None => left.push(rv),
        };
        merge_items_spec(next, right.drop_first(), sub)
    }
}

/// Table merge: each entry of `right`, in order, merges into the entry of
/// `left` with the same key, or is appended.
pub open spec fn merge_entries_spec(
    left: Seq<(Seq<char>, TreeV)>,
    right: Seq<(Seq<char>, TreeV)>,
    sub: nat,
) -> Seq<(Seq<char>, TreeV)>
    decreases sub, 2nat, right.len(),
{
    if right.len() == 0 {
        left
    } else {
        let (k, rv) = right[0];
        let next = match key_index(left, k) {
            Some(i) => left.update(i, (k, merge_spec(left[i].1, rv, sub))),
            None => left.push((k, rv)),
        };
        merge_entries_spec(next, right.drop_first(), sub)
    }
}

proof fn lemma_first_key_unique(entries: Seq<(Seq<char>, TreeV)>, k: Seq<char>, i: int)
    requires
        is_first_key(entries, k, i),
    ensures
        key_index(entries, k) == Some(i),
{
    let c = choose|c: int| is_first_key(entries, k, c);
    assert(is_first_key(entries, k, c));
    if c < i {
        assert(entries[c].0 != k);
    } else if i < c {
        assert(entries[i].0 != k);
    }
}

proof fn lemma_first_named_unique(items: Seq<TreeV>, t: TreeV, n: Seq<char>, i: int)
    requires
        name_of(t) == Some(n),
        is_first_named(items, n, i),
    ensures
        named_index(items, t) == Some(i),
{
    let c = choose|c: int| is_first_named(items, n, c);
    assert(is_first_named(items, n, c));
    if c < i {
        assert(name_of(items[c]) != Some(n));
    } else if i < c {
        assert(name_of(items[i]) != Some(n));
    }
}

proof fn lemma_array_view(items: Vec<Tree>)
    ensures
        Tree::Array(items)@ == TreeV::Array(items_view(items@)),
{
    if let TreeV::Array(s) = Tree::Array(items)@ {
        assert(s =~= items_view(items@));
    }
}

pub(crate) proof fn lemma_table_view(entries: Vec<(String, Tree)>)
    ensures
        Tree::Table(entries)@ == TreeV::Table(entries_view(entries@)),
{
    if let TreeV::Table(s) = Tree::Table(entries)@ {
        assert(s =~= entries_view(entries@));
    }
}

/// The string stored under key `key` of a table, if there is one.
fn table_str<'a>(entries: &'a Vec<(String, Tree)>, key: &String) -> (r: Option<&'a String>)
    ensures
        match table_get(entries_view(entries@), key@) {
            Some(TreeV::Str(s)) => r is Some && r->0@ == s,
            _ => r is None,
        },
{
    let ghost ev = entries_view(entries@);
    let mut i: usize = 0;
    while i < entries.len()
        invariant
            i <= entries@.len(),
            ev == entries_view(entries@),
            forall|j: int| 0 <= j < i ==> ev[j].0 != key@,
        decreases entries.len() - i,
    {
        if entries[i].0 == *key {
            proof {
                lemma_first_key_unique(ev, key@, i as int);
            }
            return match &entries[i].1 {
                Tree::Str(s) => Some(s),
                _ => None,
            };
        }
        i = i + 1;
    }
    None
}

/// The name of an array item, as [`name_of`] defines it.
fn item_name(t: &Tree) -> (r: Option<&String>)
    ensures
        match name_of(t@) {
            Some(n) => r is Some && r->0@ == n,
            None => r is None,
        },
{
    match t {
        Tree::Table(entries) => {
            let key = "name".to_owned();
            proof {
                reveal_strlit("name");
                lemma_table_view(*entries);
                assert(key@ == seq!['n', 'a', 'm', 'e']);
            }
            table_str(entries, &key)
        },
        _ => None,
    }
}

/// The position of the item of `items` that `t` overrides.
fn find_named(items: &Vec<Tree>, t: &Tree) -> (r: Option<usize>)
    ensures
        match named_index(items_view(items@), t@) {
            Some(p) => r is Some && r->0 as int == p,
            None => r is None,
        },
{
    let ghost iv = items_view(items@);
    let n = match item_name(t) {
        Some(n) => n,
        None => return None,
    };
    let mut i: usize = 0;
    while i < items.len()
        invariant
            i <= items@.len(),
            iv == items_view(items@),
            name_of(t@) == Some(n@),
            forall|j: int| 0 <= j < i ==> name_of(iv[j]) != Some(n@),
        decreases items.len() - i,
    {
        match item_name(&items[i]) {
            Some(m) => {
                if *m == *n {
                    proof {
                        lemma_first_named_unique(iv, t@, n@, i as int);
                    }
                    return Some(i);
                }
            },
            None => {},
        }
        i = i + 1;
    }
    None
}

/// The position of key `k` in a table.
pub(crate) fn find_key(entries: &Vec<(String, Tree)>, k: &String) -> (r: Option<usize>)
    ensures
        match key_index(entries_view(entries@), k@) {
            Some(p) => r is Some && r->0 as int == p,
            None => r is None,
        },
{
    let ghost ev = entries_view(entries@);
    let mut i: usize = 0;
    while i < entries.len()
        invariant
            i <= entries@.len(),
            ev == entries_view(entries@),
            forall|j: int| 0 <= j < i ==> ev[j].0 != k@,
        decreases entries.len() - i,
    {
        if entries[i].0 == *k {
            proof {
                lemma_first_key_unique(ev, k@, i as int);
            }
            return Some(i);
        }
        i = i + 1;
    }
    None
}

/// Merges `right` over `left`. Arrays and tables of the same shape are
/// reconciled item by item while `depth` is positive (each level down spends
/// one); in every other case `right` replaces `left`. The merge never fails.
pub fn merge_toml_values(left: Tree, right: Tree, depth: usize) -> (r: Tree)
    ensures
        r@ == merge_spec(left@, right@, depth as nat),
    decreases depth, 1nat,
{
    if depth == 0 {
        return right;
    }
    match left {
        Tree::Array(litems) => match right {
            Tree::Array(ritems) => {
                proof {
                    lemma_array_view(litems);
                    lemma_array_view(ritems);
                }
                let merged = merge_items(litems, ritems, depth - 1);
                proof {
                    lemma_array_view(merged);
                }
                Tree::Array(merged)
            },
            other => other,
        },
        Tree::Table(lentries) => match right {
            Tree::Table(rentries) => {
                proof {
                    lemma_table_view(lentries);
                    lemma_table_view(rentries);
                }
                let merged = merge_entries(lentries, rentries, depth - 1);
                proof {
                    lemma_table_view(merged);
                }
                Tree::Table(merged)
            },
            other => other,
        },
        _ => right,
    }
}

fn merge_items(left: Vec<Tree>, right: Vec<Tree>, sub: usize) -> (r: Vec<Tree>)
    ensures
        items_view(r@) == merge_items_spec(items_view(left@), items_view(right@), sub as nat),
    decreases sub, 2nat,
{
    let ghost goal = merge_items_spec(items_view(left@), items_view(right@), sub as nat);
    let mut acc = left;
    let mut rest = right;
    while rest.len() > 0
        invariant
            merge_items_spec(items_view(acc@), items_view(rest@), sub as nat) == goal,
        decreases rest.len(),
    {
        let ghost av = items_view(acc@);
        let ghost rs = items_view(rest@);
        let rv = rest.remove(0);
        proof {
            assert(items_view(rest@) =~= rs.drop_first());
            assert(rs[0] == rv@);
        }
        match find_named(&acc, &rv) {
            Some(p) => {
                let lv = acc.remove(p);
                proof {
                    assert(items_view(acc@) =~= av.remove(p as int));
                }
                let m = merge_toml_values(lv, rv, sub);
                acc.push(m);
                proof {
                    assert(items_view(acc@) =~= av.remove(p as int).push(
                        merge_spec(av[p as int], rs[0], sub as nat),
                    ));
                    assert(merge_items_spec(av, rs, sub as nat) == merge_items_spec(
                        items_view(acc@),
                        rs.drop_first(),
                        sub as nat,
                    ));
                }
            },
            None => {
                acc.push(rv);
                proof {
                    assert(items_view(acc@) =~= av.push(rs[0]));
                    assert(merge_items_spec(av, rs, sub as nat) == merge_items_spec(
                        items_view(acc@),
                        rs.drop_first(),
                        sub as nat,
                    ));
                }
            },
        }
    }
    acc
}

fn merge_entries(left: Vec<(String, Tree)>, right: Vec<(String, Tree)>, sub: usize) -> (r: Vec<
    (String, Tree),
>)
    ensures
        entries_view(r@) == merge_entries_spec(
            entries_view(left@),
            entries_view(right@),
            sub as nat,
        ),
    decreases sub, 2nat,
{
    let ghost goal = merge_entries_spec(entries_view(left@), entries_view(right@), sub as nat);
    let mut acc = left;
    let mut rest = right;
    while rest.len() > 0
        invariant
            merge_entries_spec(entries_view(acc@), entries_view(rest@), sub as nat) == goal,
        decreases rest.len(),
    {
        let ghost av = entries_view(acc@);
        let ghost rs = entries_view(rest@);
        let (k, rv) = rest.remove(0);
        proof {
            assert(entries_view(rest@) =~= rs.drop_first());
            assert(rs[0] == (k@, rv@));
        }
        match find_key(&acc, &k) {
            Some(p) => {
                let (lk, lv) = acc.remove(p);
                let m = merge_toml_values(lv, rv, sub);
                acc.insert(p, (k, m));
                proof {
                    assert(entries_view(acc@) =~= av.update(
                        p as int,
                        (rs[0].0, merge_spec(av[p as int].1, rs[0].1, sub as nat)),
                    ));
                    assert(merge_entries_spec(av, rs, sub as nat) == merge_entries_spec(
                        entries_view(acc@),
                        rs.drop_first(),
                        sub as nat,
                    ));
                }
            },
            None => {
                acc.push((k, rv));
                proof {
                    assert(entries_view(acc@) =~= av.push(rs[0]));
                    assert(merge_entries_spec(av, rs, sub as nat) == merge_entries_spec(
                        entries_view(acc@),
                        rs.drop_first(),
                        sub as nat,
                    ));
                }
            },
        }
    }
    acc
}

proof fn lemma_key_index_some(e: Seq<(Seq<char>, TreeV)>, k: Seq<char>)
    requires
        key_index(e, k) is Some,
    ensures
        is_first_key(e, k, key_index(e, k)->0),
{
}

proof fn lemma_key_present(e: Seq<(Seq<char>, TreeV)>, k: Seq<char>, j: int)
    requires
        0 <= j < e.len(),
        e[j].0 == k,
    ensures
        key_index(e, k) is Some,
    decreases j,
{
    if forall|i: int| 0 <= i < j ==> e[i].0 != k {
        assert(is_first_key(e, k, j));
    } else {
        let i = choose|i: int| 0 <= i < j && e[i].0 == k;
        lemma_key_present(e, k, i);
    }
}

/// Two tables that agree on the keys of the first, and on the values under
/// `k`, and whose extra entries are not `k`, give the same value for `k`.
proof fn lemma_get_frame(a: Seq<(Seq<char>, TreeV)>, b: Seq<(Seq<char>, TreeV)>, k: Seq<char>)
    requires
        a.len() <= b.len(),
        forall|j: int| 0 <= j < a.len() ==> b[j].0 == a[j].0,
        forall|j: int| 0 <= j < a.len() && a[j].0 == k ==> b[j].1 == a[j].1,
        forall|j: int| a.len() <= j < b.len() ==> b[j].0 != k,
    ensures
        table_get(b, k) == table_get(a, k),
{
    match key_index(a, k) {
        Some(c) => {
            lemma_key_index_some(a, k);
            assert(is_first_key(b, k, c));
            lemma_first_key_unique(b, k, c);
        },
        None => {
            if key_index(b, k) is Some {
                lemma_key_index_some(b, k);
                let c = key_index(b, k)->0;
                lemma_key_present(a, k, c);
            }
        },
    }
}


proof fn lemma_unique_rest(right: Seq<(Seq<char>, TreeV)>)
    requires
        right.len() > 0,
        keys_unique(right),
    ensures
        keys_unique(right.drop_first()),
{
    let rest = right.drop_first();
    assert forall|i: int, j: int|
        0 <= i < rest.len() && 0 <= j < rest.len() && i != j implies rest[i].0 != rest[j].0 by {
        assert(rest[i] == right[i + 1] && rest[j] == right[j + 1]);
    }
}

/// One step of the table merge, on the key that the step merges.
proof fn lemma_lookup_same_key(
    left: Seq<(Seq<char>, TreeV)>,
    right: Seq<(Seq<char>, TreeV)>,
    sub: nat,
    k: Seq<char>,
)
    requires
        right.len() > 0,
        right[0].0 == k,
        keys_unique(right),
    ensures
        ({
            let next = match key_index(left, k) {
                Some(i) => left.update(i, (k, merge_spec(left[i].1, right[0].1, sub))),
                None => left.push((k, right[0].1)),
            };
            &&& table_get(right, k) == Some(right[0].1)
            &&& table_get(right.drop_first(), k) is None
            &&& table_get(next, k) == match table_get(left, k) {
                Some(lv) => Some(merge_spec(lv, right[0].1, sub)),
                None => Some(right[0].1),
            }
        }),
{
    let rv = right[0].1;
    let rest = right.drop_first();
    let next = match key_index(left, k) {
        Some(i) => left.update(i, (k, merge_spec(left[i].1, rv, sub))),
        None => left.push((k, rv)),
    };
    assert(is_first_key(right, k, 0));
    lemma_first_key_unique(right, k, 0);
    if key_index(rest, k) is Some {
        lemma_key_index_some(rest, k);
        let c = key_index(rest, k)->0;
        assert(rest[c] == right[c + 1]);
    }
    if key_index(left, k) is Some {
        let i = key_index(left, k)->0;
        lemma_key_index_some(left, k);
        assert(is_first_key(next, k, i));
        lemma_first_key_unique(next, k, i);
    } else {
        if exists|j: int| 0 <= j < left.len() && left[j].0 == k {
            let j = choose|j: int| 0 <= j < left.len() && left[j].0 == k;
            lemma_key_present(left, k, j);
        }
        assert(is_first_key(next, k, left.len() as int));
        lemma_first_key_unique(next, k, left.len() as int);
    }
}

/// One step of the table merge, on a key other than the one it merges.
proof fn lemma_lookup_other_key(
    left: Seq<(Seq<char>, TreeV)>,
    right: Seq<(Seq<char>, TreeV)>,
    sub: nat,
    k: Seq<char>,
)
    requires
        right.len() > 0,
        right[0].0 != k,
    ensures
        ({
            let rk = right[0].0;
            let next = match key_index(left, rk) {
                Some(i) => left.update(i, (rk, merge_spec(left[i].1, right[0].1, sub))),
                None => left.push((rk, right[0].1)),
            };
            &&& table_get(next, k) == table_get(left, k)
            &&& table_get(right.drop_first(), k) == table_get(right, k)
        }),
{
    let rk = right[0].0;
    let rest = right.drop_first();
    if key_index(left, rk) is Some {
        lemma_key_index_some(left, rk);
    }
    let next = match key_index(left, rk) {
        Some(i) => left.update(i, (rk, merge_spec(left[i].1, right[0].1, sub))),
        None => left.push((rk, right[0].1)),
    };
    lemma_get_frame(left, next, k);
    if key_index(right, k) is Some {
        let c = key_index(right, k)->0;
        lemma_key_index_some(right, k);
        assert(is_first_key(rest, k, c - 1));
        lemma_first_key_unique(rest, k, c - 1);
    } else if key_index(rest, k) is Some {
        lemma_key_index_some(rest, k);
        let c = key_index(rest, k)->0;
        lemma_key_present(right, k, c + 1);
    }
}

proof fn lemma_entries_lookup(
    left: Seq<(Seq<char>, TreeV)>,
    right: Seq<(Seq<char>, TreeV)>,
    sub: nat,
    k: Seq<char>,
)
    requires
        keys_unique(right),
    ensures
        table_get(merge_entries_spec(left, right, sub), k) == match (
            table_get(left, k),
            table_get(right, k),
        ) {
            (Some(lv), Some(rv)) => Some(merge_spec(lv, rv, sub)),
            (None, Some(rv)) => Some(rv),
            (l, None) => l,
        },
    decreases right.len(),
{
    if right.len() > 0 {
        let (rk, rv) = right[0];
        let next = match key_index(left, rk) {
            Some(i) => left.update(i, (rk, merge_spec(left[i].1, rv, sub))),
            None => left.push((rk, rv)),
        };
        let rest = right.drop_first();
        lemma_unique_rest(right);
        lemma_entries_lookup(next, rest, sub, k);
        assert(merge_entries_spec(left, right, sub) == merge_entries_spec(next, rest, sub));
        if rk == k {
            lemma_lookup_same_key(left, right, sub, k);
        } else {
            lemma_lookup_other_key(left, right, sub, k);
        }
    }
}

proof fn lemma_entries_keep(
    left: Seq<(Seq<char>, TreeV)>,
    right: Seq<(Seq<char>, TreeV)>,
    sub: nat,
    k: Seq<char>,
)
    requires
        table_get(right, k) is None,
    ensures
        table_get(merge_entries_spec(left, right, sub), k) == table_get(left, k),
    decreases right.len(),
{
    if right.len() > 0 {
        if right[0].0 == k {
            assert(is_first_key(right, k, 0));
            lemma_first_key_unique(right, k, 0);
        }
        let (rk, rv) = right[0];
        let next = match key_index(left, rk) {
            Some(i) => left.update(i, (rk, merge_spec(left[i].1, rv, sub))),
            None => left.push((rk, rv)),
        };
        lemma_lookup_other_key(left, right, sub, k);
        lemma_entries_keep(next, right.drop_first(), sub, k);
        assert(merge_entries_spec(left, right, sub) == merge_entries_spec(
            next,
            right.drop_first(),
            sub,
        ));
    }
}

/// At depth 0 the right value replaces the left one, whatever their shapes.
pub proof fn lemma_depth_zero_replaces(left: TreeV, right: TreeV)
    ensures
        merge_spec(left, right, 0) == right,
{
}

/// When the two values are not containers of the same shape, the right one
/// replaces the left one at any depth.
pub proof fn lemma_shape_mismatch_overrides(left: TreeV, right: TreeV, depth: nat)
    requires
        !(left is Array && right is Array),
        !(left is Table && right is Table),
    ensures
        merge_spec(left, right, depth) == right,
{
}

/// Merging tables at a positive depth keeps each key that only the left table
/// has, with its value.
pub proof fn lemma_merge_keeps_left_only_keys(
    left: Seq<(Seq<char>, TreeV)>,
    right: Seq<(Seq<char>, TreeV)>,
    depth: nat,
    k: Seq<char>,
)
    requires
        depth > 0,
        table_get(right, k) is None,
    ensures
        merge_spec(TreeV::Table(left), TreeV::Table(right), depth) matches TreeV::Table(e)
            && table_get(e, k) == table_get(left, k),
{
    lemma_entries_keep(left, right, (depth - 1) as nat, k);
}

/// Merging tables at a positive depth gives a key that both have the merge of
/// its two values, one level down.
pub proof fn lemma_merge_conflict_recurses(
    left: Seq<(Seq<char>, TreeV)>,
    right: Seq<(Seq<char>, TreeV)>,
    depth: nat,
    k: Seq<char>,
    lv: TreeV,
    rv: TreeV,
)
    requires
        depth > 0,
        keys_unique(right),
        table_get(left, k) == Some(lv),
        table_get(right, k) == Some(rv),
    ensures
        merge_spec(TreeV::Table(left), TreeV::Table(right), depth) matches TreeV::Table(e)
            && table_get(e, k) == Some(merge_spec(lv, rv, (depth - 1) as nat)),
{
    lemma_entries_lookup(left, right, (depth - 1) as nat, k);
}

} // verus!
