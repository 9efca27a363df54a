//! What a domain operation asks of the transactional store, and the
//! model under which those requests are reasoned about. Each logical
//! operation runs as one transaction against one table; a table is
//! modelled as the map from keys to stored values. The engine's
//! isolation guarantee makes a committed write visible to every later
//! read, which is what lets the round-trip laws speak of
//! `Map::insert`.

use vstd::prelude::*;

verus! {

/// One record to write: the table to open, the key, the value to
/// store under it, and the confirmation to answer with.
#[derive(Debug)]
pub struct StoreWrite {
    pub table: String,
    pub key: String,
    pub value: String,
    pub message: String,
}

/// One record to remove: the table to open, the key, and the
/// confirmation to answer with. Removing an absent key is a no-op
/// success.
#[derive(Debug)]
pub struct StoreDelete {
    pub table: String,
    pub key: String,
    pub message: String,
}

/// Where a table's storage unit lives on disk.
pub open spec fn table_path(db_path: Seq<char>, table: Seq<char>) -> Seq<char> {
    db_path + "/"@ + table + ".kv"@
}

/// Builds the filesystem root of one table's storage unit.
pub fn store_path(db_path: &str, table: &str) -> (r: String)
    ensures
        r@ == table_path(db_path@, table@),
{
    let mut r = String::new();
    r.append(db_path);
    r.append("/");
    r.append(table);
    r.append(".kv");
    proof {
        assert(r@ =~= table_path(db_path@, table@));
    }
    r
}

/// Writes to two distinct keys land independently: each key reads
/// back its own value, and the two writes commute — the outcome does
/// not depend on which transaction committed first.
pub proof fn lemma_distinct_upserts_independent(
    m: Map<Seq<char>, Seq<char>>,
    k1: Seq<char>,
    v1: Seq<char>,
    k2: Seq<char>,
    v2: Seq<char>,
)
    requires
        k1 != k2,
    ensures
        m.insert(k1, v1).insert(k2, v2)[k1] == v1,
        m.insert(k1, v1).insert(k2, v2)[k2] == v2,
        m.insert(k1, v1).insert(k2, v2) == m.insert(k2, v2).insert(k1, v1),
{
    assert(m.insert(k1, v1).insert(k2, v2) =~= m.insert(k2, v2).insert(k1, v1));
}

} // verus!
