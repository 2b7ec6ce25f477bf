//! Deterministic textual rendering of the emitted relations: tab-separated
//! rows for the downstream solver, one file per relation, and a text form
//! grouped by node for inspection.

use vstd::prelude::*;

use vstd::string::{StrSliceExecFns, StringExecFns};

use crate::ast::Name;
use crate::facts::{Facts, Node, NodeView};

verus! {

/// The decimal digit character for one digit value.
pub open spec fn dec_digit(d: int) -> char {
    if d == 0 {
        '0'
    } else if d == 1 {
        '1'
    } else if d == 2 {
        '2'
    } else if d == 3 {
        '3'
    } else if d == 4 {
        '4'
    } else if d == 5 {
        '5'
    } else if d == 6 {
        '6'
    } else if d == 7 {
        '7'
    } else if d == 8 {
        '8'
    } else {
        '9'
    }
}

/// The decimal representation of a number, most significant digit first,
/// without leading zeros (zero itself is `"0"`).
pub open spec fn dec_rep(n: nat) -> Seq<char>
    decreases n,
{
    if n < 10 {
        seq![dec_digit(n as int)]
    } else {
        dec_rep(n / 10) + seq![dec_digit((n % 10) as int)]
    }
}

/// One decimal digit as text.
fn digit_str(d: usize) -> (r: &'static str)
    requires
        d < 10,
    ensures
        r@ == seq![dec_digit(d as int)],
{
    let r: &'static str = match d {
        0 => "0",
        1 => "1",
        2 => "2",
        3 => "3",
        4 => "4",
        5 => "5",
        6 => "6",
        7 => "7",
        8 => "8",
        _ => "9",
    };
    proof {
        reveal_strlit("0");
        reveal_strlit("1");
        reveal_strlit("2");
        reveal_strlit("3");
        reveal_strlit("4");
        reveal_strlit("5");
        reveal_strlit("6");
        reveal_strlit("7");
        reveal_strlit("8");
        reveal_strlit("9");
        assert(r@ =~= seq![dec_digit(d as int)]);
    }
    r
}

/// A number as decimal text.
pub fn usize_to_text(n: usize) -> (s: String)
    ensures
        s@ == dec_rep(n as nat),
    decreases n,
{
    if n < 10 {
        let mut s = String::new();
        s.append(digit_str(n));
        proof {
            assert(s@ =~= dec_rep(n as nat));
        }
        s
    } else {
        let mut s = usize_to_text(n / 10);
        s.append(digit_str(n % 10));
        proof {
            assert(s@ =~= dec_rep(n as nat));
        }
        s
    }
}

/// The serialized form of a program point: `"<block>[<index>]"`.
pub open spec fn node_text(n: NodeView) -> Seq<char> {
    n.block + seq!['['] + dec_rep(n.index as nat) + seq![']']
}

impl Node {
    /// The serialized form of this program point.
    pub fn to_text(&self) -> (s: String)
        ensures
            s@ == node_text(self.deep_view()),
    {
        let mut s = self.block.clone();
        s.append("[");
        let idx = usize_to_text(self.index);
        s.append(idx.as_str());
        s.append("]");
        proof {
            reveal_strlit("[");
            reveal_strlit("]");
            assert(s@ =~= node_text(self.deep_view()));
        }
        s
    }
}

/// The rows of an origin × node relation, from row `i` on, each rendered
/// as `origin \t node \n`.
pub open spec fn origin_node_tsv_from(rows: Seq<(Seq<char>, NodeView)>, i: int) -> Seq<char>
    decreases rows.len() - i,
{
    if 0 <= i < rows.len() {
        rows[i].0 + seq!['\t'] + node_text(rows[i].1) + seq!['\n'] + origin_node_tsv_from(
            rows,
            i + 1,
        )
    } else {
        Seq::empty()
    }
}

/// The rows of the control-flow relation, from row `i` on, each rendered
/// as `from \t to \n`.
pub open spec fn edge_tsv_from(rows: Seq<(NodeView, NodeView)>, i: int) -> Seq<char>
    decreases rows.len() - i,
{
    if 0 <= i < rows.len() {
        node_text(rows[i].0) + seq!['\t'] + node_text(rows[i].1) + seq!['\n'] + edge_tsv_from(
            rows,
            i + 1,
        )
    } else {
        Seq::empty()
    }
}

/// The rows of the subset relation, from row `i` on, each rendered as
/// `source \t target \t node \n`.
pub open spec fn subset_tsv_from(rows: Seq<(Seq<char>, Seq<char>, NodeView)>, i: int) -> Seq<
    char,
>
    decreases rows.len() - i,
{
    if 0 <= i < rows.len() {
        rows[i].0 + seq!['\t'] + rows[i].1 + seq!['\t'] + node_text(rows[i].2) + seq!['\n']
            + subset_tsv_from(rows, i + 1)
    } else {
        Seq::empty()
    }
}

/// Renders an origin × node relation as tab-separated rows.
#[verifier::loop_isolation(false)]
pub fn origin_node_tsv(rows: &Vec<(Name, Node)>) -> (s: String)
    ensures
        s@ == origin_node_tsv_from(rows.deep_view(), 0),
{
    let ghost rv = rows.deep_view();
    let mut s = String::new();
    let n = rows.len();
    let mut i: usize = 0;
    while i < n
        invariant
            i <= n,
            n == rows@.len(),
            origin_node_tsv_from(rv, 0) == s@ + origin_node_tsv_from(rv, i as int),
        decreases n - i,
    {
        s.append(rows[i].0.as_str());
        s.append("\t");
        let nt = rows[i].1.to_text();
        s.append(nt.as_str());
        s.append("\n");
        proof {
            reveal_strlit("\t");
            reveal_strlit("\n");
            assert(origin_node_tsv_from(rv, 0) =~= s@ + origin_node_tsv_from(rv, i as int + 1));
        }
        i = i + 1;
    }
    proof {
        assert(origin_node_tsv_from(rv, 0) =~= s@);
    }
    s
}

/// Renders the control-flow relation as tab-separated rows.
#[verifier::loop_isolation(false)]
pub fn edge_tsv(rows: &Vec<(Node, Node)>) -> (s: String)
    ensures
        s@ == edge_tsv_from(rows.deep_view(), 0),
{
    let ghost rv = rows.deep_view();
    let mut s = String::new();
    let n = rows.len();
    let mut i: usize = 0;
    while i < n
        invariant
            i <= n,
            n == rows@.len(),
            edge_tsv_from(rv, 0) == s@ + edge_tsv_from(rv, i as int),
        decreases n - i,
    {
        let ft = rows[i].0.to_text();
        s.append(ft.as_str());
        s.append("\t");
        let tt = rows[i].1.to_text();
        s.append(tt.as_str());
        s.append("\n");
        proof {
            reveal_strlit("\t");
            reveal_strlit("\n");
            assert(edge_tsv_from(rv, 0) =~= s@ + edge_tsv_from(rv, i as int + 1));
        }
        i = i + 1;
    }
    proof {
        assert(edge_tsv_from(rv, 0) =~= s@);
    }
    s
}

/// Renders the subset relation as tab-separated rows.
#[verifier::loop_isolation(false)]
pub fn subset_tsv(rows: &Vec<(Name, Name, Node)>) -> (s: String)
    ensures
        s@ == subset_tsv_from(rows.deep_view(), 0),
{
    let ghost rv = rows.deep_view();
    let mut s = String::new();
    let n = rows.len();
    let mut i: usize = 0;
    while i < n
        invariant
            i <= n,
            n == rows@.len(),
            subset_tsv_from(rv, 0) == s@ + subset_tsv_from(rv, i as int),
        decreases n - i,
    {
        s.append(rows[i].0.as_str());
        s.append("\t");
        s.append(rows[i].1.as_str());
        s.append("\t");
        let nt = rows[i].2.to_text();
        s.append(nt.as_str());
        s.append("\n");
        proof {
            reveal_strlit("\t");
            reveal_strlit("\n");
            assert(subset_tsv_from(rv, 0) =~= s@ + subset_tsv_from(rv, i as int + 1));
        }
        i = i + 1;
    }
    proof {
        assert(subset_tsv_from(rv, 0) =~= s@);
    }
    s
}

impl Facts {
    /// The five relations rendered as files: each entry is the relation's
    /// name and its tab-separated rows, in a fixed order.
    pub fn to_relation_files(&self) -> (r: Vec<(String, String)>)
        ensures
            r.deep_view() =~= seq![
                ("access_origin"@, origin_node_tsv_from(self.deep_view().access_origin, 0)),
                ("cfg_edge"@, edge_tsv_from(self.deep_view().cfg_edge, 0)),
                ("clear_origin"@, origin_node_tsv_from(self.deep_view().clear_origin, 0)),
                ("introduce_subset"@, subset_tsv_from(self.deep_view().introduce_subset, 0)),
                (
                    "invalidate_origin"@,
                    origin_node_tsv_from(self.deep_view().invalidate_origin, 0),
                ),
            ],
    {
        let mut r: Vec<(String, String)> = Vec::new();
        r.push((String::from_str("access_origin"), origin_node_tsv(&self.access_origin)));
        r.push((String::from_str("cfg_edge"), edge_tsv(&self.cfg_edge)));
        r.push((String::from_str("clear_origin"), origin_node_tsv(&self.clear_origin)));
        r.push((String::from_str("introduce_subset"), subset_tsv(&self.introduce_subset)));
        r.push(
            (String::from_str("invalidate_origin"), origin_node_tsv(&self.invalidate_origin)),
        );
        r
    }
}

/// Lexicographic order on character sequences by code point; a proper
/// prefix comes first.
pub open spec fn lex_lt(a: Seq<char>, b: Seq<char>) -> bool
    decreases a.len(),
{
    if b.len() == 0 {
        false
    } else if a.len() == 0 {
        true
    } else if a[0] < b[0] {
        true
    } else if b[0] < a[0] {
        false
    } else {
        lex_lt(a.subrange(1, a.len() as int), b.subrange(1, b.len() as int))
    }
}

/// Inserts a key into a sorted key list, keeping it sorted and without
/// duplicates.
pub open spec fn insert_key(keys: Seq<Seq<char>>, k: Seq<char>) -> Seq<Seq<char>>
    decreases keys.len(),
{
    if keys.len() == 0 {
        seq![k]
    } else if k == keys[0] {
        keys
    } else if lex_lt(k, keys[0]) {
        seq![k] + keys
    } else {
        seq![keys[0]] + insert_key(keys.subrange(1, keys.len() as int), k)
    }
}

/// The lexicographic order is total: two distinct texts compare one way
/// or the other.
pub proof fn lemma_lex_total(a: Seq<char>, b: Seq<char>)
    requires
        a != b,
    ensures
        lex_lt(a, b) || lex_lt(b, a),
    decreases a.len(),
{
    if a.len() == 0 && b.len() == 0 {
        assert(a =~= b);
    } else if a.len() == 0 || b.len() == 0 {
    } else if a[0] < b[0] || b[0] < a[0] {
    } else {
        assert(a[0] == b[0]);
        let at = a.subrange(1, a.len() as int);
        let bt = b.subrange(1, b.len() as int);
        assert(at.len() == a.len() - 1);
        assert(bt.len() == b.len() - 1);
        assert(at != bt) by {
            if at == bt {
                assert(at.len() == bt.len());
                assert(a.len() == b.len());
                assert forall|i: int| 0 <= i < a.len() implies a[i] == b[i] by {
                    if i >= 1 {
                        assert(at[i - 1] == bt[i - 1]);
                    }
                }
                assert(a =~= b);
            }
        }
        lemma_lex_total(at, bt);
    }
}

/// The lexicographic order is transitive.
pub proof fn lemma_lex_trans(a: Seq<char>, b: Seq<char>, c: Seq<char>)
    requires
        lex_lt(a, b),
        lex_lt(b, c),
    ensures
        lex_lt(a, c),
    decreases a.len(),
{
    if b.len() == 0 || c.len() == 0 {
    } else if a.len() == 0 {
    } else {
        if a[0] < b[0] {
        } else {
            assert(a[0] == b[0]);
            if b[0] < c[0] {
            } else {
                assert(b[0] == c[0]);
                lemma_lex_trans(
                    a.subrange(1, a.len() as int),
                    b.subrange(1, b.len() as int),
                    c.subrange(1, c.len() as int),
                );
            }
        }
    }
}

/// Whether the key list is strictly sorted (and so free of duplicates).
pub open spec fn keys_sorted(keys: Seq<Seq<char>>) -> bool {
    forall|i: int, j: int| 0 <= i < j < keys.len() ==> lex_lt(#[trigger] keys[i], #[trigger] keys[j])
}

/// Inserting a key keeps the key list strictly sorted.
pub proof fn lemma_insert_key_sorted(keys: Seq<Seq<char>>, k: Seq<char>)
    requires
        keys_sorted(keys),
    ensures
        keys_sorted(insert_key(keys, k)),
    decreases keys.len(),
{
    let r = insert_key(keys, k);
    if keys.len() == 0 {
    } else if k == keys[0] {
    } else if lex_lt(k, keys[0]) {
        assert forall|i: int, j: int| 0 <= i < j < r.len() implies lex_lt(
            #[trigger] r[i],
            #[trigger] r[j],
        ) by {
            if i == 0 {
                if j > 1 {
                    lemma_lex_trans(k, keys[0], keys[j - 1]);
                }
            }
        }
    } else {
        let tail = keys.subrange(1, keys.len() as int);
        assert forall|i: int, j: int| 0 <= i < j < tail.len() implies lex_lt(
            #[trigger] tail[i],
            #[trigger] tail[j],
        ) by {
            assert(tail[i] == keys[i + 1]);
            assert(tail[j] == keys[j + 1]);
        }
        lemma_insert_key_sorted(tail, k);
        let rt = insert_key(tail, k);
        lemma_lex_total(k, keys[0]);
        assert(lex_lt(keys[0], k));
        assert forall|j: int| 0 <= j < rt.len() implies lex_lt(keys[0], #[trigger] rt[j]) by {
            lemma_insert_key_members(tail, k, j);
            if rt[j] == k {
            } else {
                let m = choose|m: int| 0 <= m < tail.len() && tail[m] == rt[j];
                assert(tail[m] == keys[m + 1]);
            }
        }
        assert forall|i: int, j: int| 0 <= i < j < r.len() implies lex_lt(
            #[trigger] r[i],
            #[trigger] r[j],
        ) by {
            assert(r =~= seq![keys[0]] + rt);
            if i == 0 {
                assert(r[j] == rt[j - 1]);
            } else {
                assert(r[i] == rt[i - 1] && r[j] == rt[j - 1]);
            }
        }
    }
}

/// Every entry of an insertion is the new key or one of the old ones.
pub proof fn lemma_insert_key_members(keys: Seq<Seq<char>>, k: Seq<char>, j: int)
    requires
        0 <= j < insert_key(keys, k).len(),
    ensures
        insert_key(keys, k)[j] == k || keys.contains(insert_key(keys, k)[j]),
    decreases keys.len(),
{
    let r = insert_key(keys, k);
    if keys.len() == 0 {
    } else if k == keys[0] {
        assert(keys.contains(keys[j]));
    } else if lex_lt(k, keys[0]) {
        if j > 0 {
            assert(r[j] == keys[j - 1]);
            assert(keys.contains(keys[j - 1]));
        }
    } else {
        let tail = keys.subrange(1, keys.len() as int);
        if j == 0 {
            assert(keys.contains(keys[0]));
        } else {
            lemma_insert_key_members(tail, k, j - 1);
            assert(r[j] == insert_key(tail, k)[j - 1]);
            if insert_key(tail, k)[j - 1] == k {
            } else {
                let m = choose|m: int| 0 <= m < tail.len() && tail[m] == insert_key(tail, k)[j - 1];
                assert(keys[m + 1] == tail[m]);
                assert(keys.contains(keys[m + 1]));
            }
        }
    }
}

/// Adds the serialized endpoints of the control-flow rows from `i` on.
pub open spec fn add_edge_keys(
    keys: Seq<Seq<char>>,
    rows: Seq<(NodeView, NodeView)>,
    i: int,
) -> Seq<Seq<char>>
    decreases rows.len() - i,
{
    if 0 <= i < rows.len() {
        add_edge_keys(
            insert_key(insert_key(keys, node_text(rows[i].0)), node_text(rows[i].1)),
            rows,
            i + 1,
        )
    } else {
        keys
    }
}

/// Adds the serialized nodes of an origin × node relation from `i` on.
pub open spec fn add_origin_node_keys(
    keys: Seq<Seq<char>>,
    rows: Seq<(Seq<char>, NodeView)>,
    i: int,
) -> Seq<Seq<char>>
    decreases rows.len() - i,
{
    if 0 <= i < rows.len() {
        add_origin_node_keys(insert_key(keys, node_text(rows[i].1)), rows, i + 1)
    } else {
        keys
    }
}

/// Adds the serialized nodes of the subset relation from `i` on.
pub open spec fn add_subset_keys(
    keys: Seq<Seq<char>>,
    rows: Seq<(Seq<char>, Seq<char>, NodeView)>,
    i: int,
) -> Seq<Seq<char>>
    decreases rows.len() - i,
{
    if 0 <= i < rows.len() {
        add_subset_keys(insert_key(keys, node_text(rows[i].2)), rows, i + 1)
    } else {
        keys
    }
}

/// Every node mentioned anywhere in the bundle, serialized, sorted and
/// without duplicates.
pub open spec fn grouped_keys(f: crate::facts::FactsView) -> Seq<Seq<char>> {
    add_subset_keys(
        add_origin_node_keys(
            add_origin_node_keys(
                add_origin_node_keys(
                    add_edge_keys(Seq::empty(), f.cfg_edge, 0),
                    f.access_origin,
                    0,
                ),
                f.clear_origin,
                0,
            ),
            f.invalidate_origin,
            0,
        ),
        f.introduce_subset,
        0,
    )
}

pub proof fn lemma_add_edge_keys_sorted(
    keys: Seq<Seq<char>>,
    rows: Seq<(NodeView, NodeView)>,
    i: int,
)
    requires
        keys_sorted(keys),
    ensures
        keys_sorted(add_edge_keys(keys, rows, i)),
    decreases rows.len() - i,
{
    if 0 <= i < rows.len() {
        lemma_insert_key_sorted(keys, node_text(rows[i].0));
        lemma_insert_key_sorted(insert_key(keys, node_text(rows[i].0)), node_text(rows[i].1));
        lemma_add_edge_keys_sorted(
            insert_key(insert_key(keys, node_text(rows[i].0)), node_text(rows[i].1)),
            rows,
            i + 1,
        );
    }
}

pub proof fn lemma_add_origin_node_keys_sorted(
    keys: Seq<Seq<char>>,
    rows: Seq<(Seq<char>, NodeView)>,
    i: int,
)
    requires
        keys_sorted(keys),
    ensures
        keys_sorted(add_origin_node_keys(keys, rows, i)),
    decreases rows.len() - i,
{
    if 0 <= i < rows.len() {
        lemma_insert_key_sorted(keys, node_text(rows[i].1));
        lemma_add_origin_node_keys_sorted(insert_key(keys, node_text(rows[i].1)), rows, i + 1);
    }
}

pub proof fn lemma_add_subset_keys_sorted(
    keys: Seq<Seq<char>>,
    rows: Seq<(Seq<char>, Seq<char>, NodeView)>,
    i: int,
)
    requires
        keys_sorted(keys),
    ensures
        keys_sorted(add_subset_keys(keys, rows, i)),
    decreases rows.len() - i,
{
    if 0 <= i < rows.len() {
        lemma_insert_key_sorted(keys, node_text(rows[i].2));
        lemma_add_subset_keys_sorted(insert_key(keys, node_text(rows[i].2)), rows, i + 1);
    }
}

/// Law (grouped nodes are sorted): the key list of the grouped text form
/// is strictly sorted in the lexicographic order, so nodes are printed in
/// sorted order and each node is printed once.
pub proof fn lemma_grouped_keys_sorted(f: crate::facts::FactsView)
    ensures
        keys_sorted(grouped_keys(f)),
{
    lemma_add_edge_keys_sorted(Seq::empty(), f.cfg_edge, 0);
    lemma_add_origin_node_keys_sorted(
        add_edge_keys(Seq::empty(), f.cfg_edge, 0),
        f.access_origin,
        0,
    );
    lemma_add_origin_node_keys_sorted(
        add_origin_node_keys(add_edge_keys(Seq::empty(), f.cfg_edge, 0), f.access_origin, 0),
        f.clear_origin,
        0,
    );
    lemma_add_origin_node_keys_sorted(
        add_origin_node_keys(
            add_origin_node_keys(add_edge_keys(Seq::empty(), f.cfg_edge, 0), f.access_origin, 0),
            f.clear_origin,
            0,
        ),
        f.invalidate_origin,
        0,
    );
    lemma_add_subset_keys_sorted(
        add_origin_node_keys(
            add_origin_node_keys(
                add_origin_node_keys(
                    add_edge_keys(Seq::empty(), f.cfg_edge, 0),
                    f.access_origin,
                    0,
                ),
                f.clear_origin,
                0,
            ),
            f.invalidate_origin,
            0,
        ),
        f.introduce_subset,
        0,
    );
}

/// One line per row of an origin × node relation whose node serializes to
/// `key`, from row `i` on.
pub open spec fn origin_fact_lines(
    label: Seq<char>,
    rows: Seq<(Seq<char>, NodeView)>,
    key: Seq<char>,
    i: int,
) -> Seq<char>
    decreases rows.len() - i,
{
    if 0 <= i < rows.len() {
        (if node_text(rows[i].1) == key {
            "\t"@ + label + "("@ + rows[i].0 + ")\n"@
        } else {
            Seq::empty()
        }) + origin_fact_lines(label, rows, key, i + 1)
    } else {
        Seq::empty()
    }
}

/// One line per subset row whose node serializes to `key`, from `i` on.
pub open spec fn subset_fact_lines(
    rows: Seq<(Seq<char>, Seq<char>, NodeView)>,
    key: Seq<char>,
    i: int,
) -> Seq<char>
    decreases rows.len() - i,
{
    if 0 <= i < rows.len() {
        (if node_text(rows[i].2) == key {
            "\t"@ + "introduce_subset("@ + rows[i].0 + ", "@ + rows[i].1 + ")\n"@
        } else {
            Seq::empty()
        }) + subset_fact_lines(rows, key, i + 1)
    } else {
        Seq::empty()
    }
}

/// The serialized successors of the node `key`, from edge `i` on, each
/// preceded by one space.
pub open spec fn succ_parts(rows: Seq<(NodeView, NodeView)>, key: Seq<char>, i: int) -> Seq<char>
    decreases rows.len() - i,
{
    if 0 <= i < rows.len() {
        (if node_text(rows[i].0) == key {
            " "@ + node_text(rows[i].1)
        } else {
            Seq::empty()
        }) + succ_parts(rows, key, i + 1)
    } else {
        Seq::empty()
    }
}

/// Whether the node `key` has an outgoing edge, from edge `i` on.
pub open spec fn has_succ(rows: Seq<(NodeView, NodeView)>, key: Seq<char>, i: int) -> bool
    decreases rows.len() - i,
{
    if 0 <= i < rows.len() {
        node_text(rows[i].0) == key || has_succ(rows, key, i + 1)
    } else {
        false
    }
}

/// Everything printed for one node: a header, its facts grouped by
/// relation, a `goto` line when it has successors, and a closing brace.
pub open spec fn node_group_text(f: crate::facts::FactsView, key: Seq<char>) -> Seq<char> {
    key + ": {\n"@ + origin_fact_lines("access_origin"@, f.access_origin, key, 0)
        + origin_fact_lines("clear_origin"@, f.clear_origin, key, 0) + origin_fact_lines(
        "invalidate_origin"@,
        f.invalidate_origin,
        key,
        0,
    ) + subset_fact_lines(f.introduce_subset, key, 0) + (if has_succ(f.cfg_edge, key, 0) {
        "\tgoto"@ + succ_parts(f.cfg_edge, key, 0) + "\n"@
    } else {
        Seq::empty()
    }) + "}\n"@
}

/// The grouped text from key `i` on, with a blank line between nodes.
pub open spec fn grouped_from(
    f: crate::facts::FactsView,
    keys: Seq<Seq<char>>,
    i: int,
) -> Seq<char>
    decreases keys.len() - i,
{
    if 0 <= i < keys.len() {
        (if i > 0 {
            "\n"@
        } else {
            Seq::empty()
        }) + node_group_text(f, keys[i]) + grouped_from(f, keys, i + 1)
    } else {
        Seq::empty()
    }
}

/// The whole grouped text form: nodes in sorted order, facts before the
/// `goto` line within each node.
pub open spec fn grouped_text(f: crate::facts::FactsView) -> Seq<char> {
    grouped_from(f, grouped_keys(f), 0)
}

/// Compares two pieces of text in the lexicographic order.
#[verifier::loop_isolation(false)]
fn lex_lt_str(a: &str, b: &str) -> (r: bool)
    ensures
        r == lex_lt(a@, b@),
{
    let alen = a.unicode_len();
    let blen = b.unicode_len();
    let mut i: usize = 0;
    proof {
        assert(a@.subrange(0, alen as int) =~= a@);
        assert(b@.subrange(0, blen as int) =~= b@);
    }
    while i < alen && i < blen
        invariant
            i <= alen,
            i <= blen,
            alen == a@.len(),
            blen == b@.len(),
            lex_lt(a@, b@) == lex_lt(
                a@.subrange(i as int, alen as int),
                b@.subrange(i as int, blen as int),
            ),
        decreases alen - i,
    {
        let ghost asuf = a@.subrange(i as int, alen as int);
        let ghost bsuf = b@.subrange(i as int, blen as int);
        proof {
            assert(asuf[0] == a@[i as int]);
            assert(bsuf[0] == b@[i as int]);
            assert(asuf.subrange(1, asuf.len() as int) =~= a@.subrange(
                i as int + 1,
                alen as int,
            ));
            assert(bsuf.subrange(1, bsuf.len() as int) =~= b@.subrange(
                i as int + 1,
                blen as int,
            ));
        }
        let ca = a.get_char(i);
        let cb = b.get_char(i);
        if ca < cb {
            return true;
        }
        if cb < ca {
            return false;
        }
        i = i + 1;
    }
    proof {
        let asuf = a@.subrange(i as int, alen as int);
        let bsuf = b@.subrange(i as int, blen as int);
        assert(asuf.len() == 0 || bsuf.len() == 0);
    }
    i < blen
}

/// Where the new key stands relative to a sorted key list: the list
/// already holding it, or the list with it inserted at its position.
pub proof fn lemma_insert_key_at(keys: Seq<Seq<char>>, k: Seq<char>, j: int)
    requires
        0 <= j <= keys.len(),
        forall|m: int| 0 <= m < j ==> #[trigger] keys[m] != k && !lex_lt(k, keys[m]),
        j < keys.len() ==> (k == keys[j] || lex_lt(k, keys[j])),
    ensures
        j < keys.len() && k == keys[j] ==> insert_key(keys, k) == keys,
        !(j < keys.len() && k == keys[j]) ==> insert_key(keys, k) == keys.subrange(0, j)
            + seq![k] + keys.subrange(j, keys.len() as int),
    decreases j,
{
    if j == 0 {
        if keys.len() == 0 {
            assert(insert_key(keys, k) =~= keys.subrange(0, 0) + seq![k] + keys.subrange(
                0,
                keys.len() as int,
            ));
        } else if k == keys[0] {
        } else {
            assert(lex_lt(k, keys[0]));
            assert(seq![k] + keys =~= keys.subrange(0, 0) + seq![k] + keys.subrange(
                0,
                keys.len() as int,
            ));
        }
    } else {
        let tail = keys.subrange(1, keys.len() as int);
        assert(keys[0] != k && !lex_lt(k, keys[0]));
        assert forall|m: int| 0 <= m < j - 1 implies #[trigger] tail[m] != k && !lex_lt(
            k,
            tail[m],
        ) by {
            assert(tail[m] == keys[m + 1]);
        }
        if j - 1 < tail.len() {
            assert(tail[j - 1] == keys[j]);
        }
        lemma_insert_key_at(tail, k, j - 1);
        if j < keys.len() && k == keys[j] {
            assert(insert_key(keys, k) =~= keys);
        } else {
            assert(tail.subrange(0, j - 1) =~= keys.subrange(1, j));
            assert(tail.subrange(j - 1, tail.len() as int) =~= keys.subrange(
                j,
                keys.len() as int,
            ));
            assert(seq![keys[0]] + (tail.subrange(0, j - 1) + seq![k] + tail.subrange(
                j - 1,
                tail.len() as int,
            )) =~= keys.subrange(0, j) + seq![k] + keys.subrange(j, keys.len() as int));
        }
    }
}

/// Inserts a serialized node into the sorted key list, keeping it sorted
/// and without duplicates.
#[verifier::loop_isolation(false)]
fn insert_key_vec(keys: &mut Vec<String>, k: String)
    ensures
        final(keys).deep_view() == insert_key(old(keys).deep_view(), k@),
{
    let ghost kv = old(keys).deep_view();
    let n = keys.len();
    let mut j: usize = 0;
    while j < n
        invariant
            j <= n,
            n == keys@.len(),
            keys.deep_view() == kv,
            forall|m: int| 0 <= m < j ==> #[trigger] kv[m] != k@ && !lex_lt(k@, kv[m]),
        decreases n - j,
    {
        if keys[j] == k {
            proof {
                lemma_insert_key_at(kv, k@, j as int);
            }
            return ;
        }
        if lex_lt_str(k.as_str(), keys[j].as_str()) {
            keys.insert(j, k);
            proof {
                lemma_insert_key_at(kv, k@, j as int);
                assert(keys.deep_view() =~~= kv.subrange(0, j as int) + seq![k@] + kv.subrange(
                    j as int,
                    kv.len() as int,
                ));
            }
            return ;
        }
        j = j + 1;
    }
    keys.push(k);
    proof {
        lemma_insert_key_at(kv, k@, n as int);
        assert(keys.deep_view() =~~= kv.subrange(0, n as int) + seq![k@] + kv.subrange(
            n as int,
            kv.len() as int,
        ));
    }
}

/// Appends the lines of an origin × node relation at the node `key`.
#[verifier::loop_isolation(false)]
fn append_origin_lines(label: &str, rows: &Vec<(Name, Node)>, key: &String, out: &mut String)
    ensures
        final(out)@ == old(out)@ + origin_fact_lines(label@, rows.deep_view(), key@, 0),
{
    let ghost rv = rows.deep_view();
    let n = rows.len();
    let mut i: usize = 0;
    while i < n
        invariant
            i <= n,
            n == rows@.len(),
            old(out)@ + origin_fact_lines(label@, rv, key@, 0) == out@ + origin_fact_lines(
                label@,
                rv,
                key@,
                i as int,
            ),
        decreases n - i,
    {
        let nt = rows[i].1.to_text();
        if nt == *key {
            out.append("\t");
            out.append(label);
            out.append("(");
            out.append(rows[i].0.as_str());
            out.append(")\n");
        }
        proof {
            assert(old(out)@ + origin_fact_lines(label@, rv, key@, 0) =~= out@
                + origin_fact_lines(label@, rv, key@, i as int + 1));
        }
        i = i + 1;
    }
    proof {
        assert(final(out)@ =~= old(out)@ + origin_fact_lines(label@, rv, key@, 0));
    }
}

/// Appends the lines of the subset relation at the node `key`.
#[verifier::loop_isolation(false)]
fn append_subset_lines(rows: &Vec<(Name, Name, Node)>, key: &String, out: &mut String)
    ensures
        final(out)@ == old(out)@ + subset_fact_lines(rows.deep_view(), key@, 0),
{
    let ghost rv = rows.deep_view();
    let n = rows.len();
    let mut i: usize = 0;
    while i < n
        invariant
            i <= n,
            n == rows@.len(),
            old(out)@ + subset_fact_lines(rv, key@, 0) == out@ + subset_fact_lines(
                rv,
                key@,
                i as int,
            ),
        decreases n - i,
    {
        let nt = rows[i].2.to_text();
        if nt == *key {
            out.append("\t");
            out.append("introduce_subset(");
            out.append(rows[i].0.as_str());
            out.append(", ");
            out.append(rows[i].1.as_str());
            out.append(")\n");
        }
        proof {
            assert(old(out)@ + subset_fact_lines(rv, key@, 0) =~= out@ + subset_fact_lines(
                rv,
                key@,
                i as int + 1,
            ));
        }
        i = i + 1;
    }
    proof {
        assert(final(out)@ =~= old(out)@ + subset_fact_lines(rv, key@, 0));
    }
}

/// Appends the `goto` line of the node `key`, when it has successors.
#[verifier::loop_isolation(false)]
fn append_goto_line(rows: &Vec<(Node, Node)>, key: &String, out: &mut String)
    ensures
        final(out)@ == old(out)@ + (if has_succ(rows.deep_view(), key@, 0) {
            "\tgoto"@ + succ_parts(rows.deep_view(), key@, 0) + "\n"@
        } else {
            Seq::<char>::empty()
        }),
{
    let ghost rv = rows.deep_view();
    let mut parts = String::new();
    let mut has = false;
    let n = rows.len();
    let mut i: usize = 0;
    while i < n
        invariant
            i <= n,
            n == rows@.len(),
            succ_parts(rv, key@, 0) == parts@ + succ_parts(rv, key@, i as int),
            has_succ(rv, key@, 0) == (has || has_succ(rv, key@, i as int)),
        decreases n - i,
    {
        let ft = rows[i].0.to_text();
        if ft == *key {
            has = true;
            parts.append(" ");
            let tt = rows[i].1.to_text();
            parts.append(tt.as_str());
        }
        proof {
            assert(succ_parts(rv, key@, 0) =~= parts@ + succ_parts(rv, key@, i as int + 1));
        }
        i = i + 1;
    }
    proof {
        assert(succ_parts(rv, key@, 0) =~= parts@);
    }
    if has {
        out.append("\tgoto");
        out.append(parts.as_str());
        out.append("\n");
        proof {
            assert(final(out)@ =~= old(out)@ + ("\tgoto"@ + succ_parts(rv, key@, 0) + "\n"@));
        }
    } else {
        proof {
            assert(final(out)@ =~= old(out)@ + Seq::<char>::empty());
        }
    }
}

impl Facts {
    /// The grouped text form: for every node of the bundle, in sorted
    /// order of its serialized name, the node's facts grouped by relation
    /// and then its `goto` line.
    #[verifier::loop_isolation(false)]
    #[verifier::rlimit(100)]
    pub fn to_grouped_text(&self) -> (s: String)
        ensures
            s@ == grouped_text(self.deep_view()),
    {
        let ghost fv = self.deep_view();
        let mut keys: Vec<String> = Vec::new();
        let mut i: usize = 0;
        let n1 = self.cfg_edge.len();
        while i < n1
            invariant
                i <= n1,
                n1 == self.cfg_edge@.len(),
                add_edge_keys(Seq::empty(), fv.cfg_edge, 0) == add_edge_keys(
                    keys.deep_view(),
                    fv.cfg_edge,
                    i as int,
                ),
            decreases n1 - i,
        {
            let t0 = self.cfg_edge[i].0.to_text();
            insert_key_vec(&mut keys, t0);
            let t1 = self.cfg_edge[i].1.to_text();
            insert_key_vec(&mut keys, t1);
            i = i + 1;
        }
        let ghost k1 = add_edge_keys(Seq::empty(), fv.cfg_edge, 0);
        i = 0;
        let n2 = self.access_origin.len();
        while i < n2
            invariant
                i <= n2,
                n2 == self.access_origin@.len(),
                add_origin_node_keys(k1, fv.access_origin, 0) == add_origin_node_keys(
                    keys.deep_view(),
                    fv.access_origin,
                    i as int,
                ),
            decreases n2 - i,
        {
            let t = self.access_origin[i].1.to_text();
            insert_key_vec(&mut keys, t);
            i = i + 1;
        }
        let ghost k2 = add_origin_node_keys(k1, fv.access_origin, 0);
        i = 0;
        let n3 = self.clear_origin.len();
        while i < n3
            invariant
                i <= n3,
                n3 == self.clear_origin@.len(),
                add_origin_node_keys(k2, fv.clear_origin, 0) == add_origin_node_keys(
                    keys.deep_view(),
                    fv.clear_origin,
                    i as int,
                ),
            decreases n3 - i,
        {
            let t = self.clear_origin[i].1.to_text();
            insert_key_vec(&mut keys, t);
            i = i + 1;
        }
        let ghost k3 = add_origin_node_keys(k2, fv.clear_origin, 0);
        i = 0;
        let n4 = self.invalidate_origin.len();
        while i < n4
            invariant
                i <= n4,
                n4 == self.invalidate_origin@.len(),
                add_origin_node_keys(k3, fv.invalidate_origin, 0) == add_origin_node_keys(
                    keys.deep_view(),
                    fv.invalidate_origin,
                    i as int,
                ),
            decreases n4 - i,
        {
            let t = self.invalidate_origin[i].1.to_text();
            insert_key_vec(&mut keys, t);
            i = i + 1;
        }
        let ghost k4 = add_origin_node_keys(k3, fv.invalidate_origin, 0);
        i = 0;
        let n5 = self.introduce_subset.len();
        while i < n5
            invariant
                i <= n5,
                n5 == self.introduce_subset@.len(),
                add_subset_keys(k4, fv.introduce_subset, 0) == add_subset_keys(
                    keys.deep_view(),
                    fv.introduce_subset,
                    i as int,
                ),
            decreases n5 - i,
        {
            let t = self.introduce_subset[i].2.to_text();
            insert_key_vec(&mut keys, t);
            i = i + 1;
        }
        proof {
            assert(keys.deep_view() == grouped_keys(fv));
        }
        let ghost keysv = keys.deep_view();
        let mut s = String::new();
        let nk = keys.len();
        let mut ki: usize = 0;
        while ki < nk
            invariant
                ki <= nk,
                nk == keys@.len(),
                keys.deep_view() == keysv,
                grouped_from(fv, keysv, 0) == s@ + grouped_from(fv, keysv, ki as int),
            decreases nk - ki,
        {
            let ghost before = s@;
            if ki > 0 {
                s.append("\n");
            }
            s.append(keys[ki].as_str());
            s.append(": {\n");
            append_origin_lines("access_origin", &self.access_origin, &keys[ki], &mut s);
            append_origin_lines("clear_origin", &self.clear_origin, &keys[ki], &mut s);
            append_origin_lines("invalidate_origin", &self.invalidate_origin, &keys[ki], &mut s);
            append_subset_lines(&self.introduce_subset, &keys[ki], &mut s);
            append_goto_line(&self.cfg_edge, &keys[ki], &mut s);
            s.append("}\n");
            proof {
                assert(s@ =~= before + (if ki > 0 {
                    "\n"@
                } else {
                    Seq::<char>::empty()
                }) + node_group_text(fv, keysv[ki as int]));
                assert(grouped_from(fv, keysv, 0) =~= s@ + grouped_from(fv, keysv, ki as int + 1));
            }
            ki = ki + 1;
        }
        proof {
            assert(grouped_from(fv, keysv, 0) =~= s@);
        }
        s
    }
}

/// Law (determinism): emission and serialization are functions of the
/// program value alone. The emitter's contract pins its result to
/// `emit_program` of the program's view, and each renderer's contract pins
/// its text to a function of the bundle's view; so two runs over the same
/// program yield the same bundle, byte-identical relation files and
/// byte-identical grouped text.
pub proof fn lemma_output_deterministic(p1: crate::ast::ProgramView, p2: crate::ast::ProgramView)
    requires
        p1 == p2,
    ensures
        crate::fact_emitter::emit_program(p1) == crate::fact_emitter::emit_program(p2),
        crate::fact_emitter::emit_program(p1) matches Ok(f) ==> {
            let g = crate::fact_emitter::emit_program(p2)->Ok_0;
            &&& origin_node_tsv_from(f.access_origin, 0) == origin_node_tsv_from(
                g.access_origin,
                0,
            )
            &&& edge_tsv_from(f.cfg_edge, 0) == edge_tsv_from(g.cfg_edge, 0)
            &&& origin_node_tsv_from(f.clear_origin, 0) == origin_node_tsv_from(g.clear_origin, 0)
            &&& subset_tsv_from(f.introduce_subset, 0) == subset_tsv_from(g.introduce_subset, 0)
            &&& origin_node_tsv_from(f.invalidate_origin, 0) == origin_node_tsv_from(
                g.invalidate_origin,
                0,
            )
            &&& grouped_text(f) == grouped_text(g)
        },
{
}

} // verus!
