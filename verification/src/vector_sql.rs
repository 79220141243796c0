//! SQL of the pgvector store: collection names are checked identifiers,
//! each distance has its operator and its index operator class, and the
//! statements are built around them.
//!
//! A collection `name` is the table
//! `name (id TEXT PRIMARY KEY, embedding vector(dim) NOT NULL, metadata JSONB)`.

use vstd::prelude::*;
use crate::decimal::{dec, dec_signed, format_i64, format_u64};
use crate::migrations::DbError;
use crate::text::{chars_of, concat_str};

verus! {

/// How vectors are compared.
#[derive(Debug, Clone, Copy, PartialEq, Eq, Structural)]
pub enum Distance {
    Cosine,
    Dot,
    L2,
}

/// The pgvector operator of a distance.
pub open spec fn op_text(d: Distance) -> Seq<char> {
    match d {
        Distance::Cosine => "<=>"@,
        Distance::L2 => "<->"@,
        Distance::Dot => "<#>"@,
    }
}

/// The pgvector operator of a distance.
pub fn op_str(d: Distance) -> (r: &'static str)
    ensures
        r@ == op_text(d),
{
    match d {
        Distance::Cosine => "<=>",
        Distance::L2 => "<->",
        Distance::Dot => "<#>",
    }
}

/// The operator class that indexes a distance.
pub open spec fn index_op_text(d: Distance) -> Seq<char> {
    match d {
        Distance::Cosine => "vector_cosine_ops"@,
        Distance::L2 => "vector_l2_ops"@,
        Distance::Dot => "vector_ip_ops"@,
    }
}

/// The operator class that indexes a distance.
pub fn index_op(d: Distance) -> (r: &'static str)
    ensures
        r@ == index_op_text(d),
{
    match d {
        Distance::Cosine => "vector_cosine_ops",
        Distance::L2 => "vector_l2_ops",
        Distance::Dot => "vector_ip_ops",
    }
}

/// A character allowed in an identifier: an ASCII letter or digit, or `_`.
pub open spec fn ident_char(c: char) -> bool {
    ('a' <= c && c <= 'z') || ('A' <= c && c <= 'Z') || ('0' <= c && c <= '9') || c == '_'
}

/// A valid identifier: one to 63 characters, each allowed.
pub open spec fn valid_ident(s: Seq<char>) -> bool {
    &&& 1 <= s.len() <= 63
    &&& forall|i: int| 0 <= i < s.len() ==> ident_char(#[trigger] s[i])
}

/// The message that refuses an identifier.
pub open spec fn invalid_ident_text(s: Seq<char>) -> Seq<char> {
    "invalid identifier `"@ + s + "`"@
}

/// Accepts `s` as a table name when `valid_ident` holds, so that it can
/// stand unquoted in a statement.
pub fn validate_ident(s: &str) -> (r: Result<(), DbError>)
    ensures
        r is Ok <==> valid_ident(s@),
        r matches Err(e) ==> (e matches DbError::Other(m) && m@ == invalid_ident_text(s@)),
{
    let cs = chars_of(s);
    let mut ok = 1 <= cs.len() && cs.len() <= 63;
    let mut i: usize = 0;
    while ok && i < cs.len()
        invariant
            cs@ == s@,
            i <= cs.len(),
            ok ==> forall|k: int| 0 <= k < i ==> ident_char(#[trigger] s@[k]),
            ok ==> 1 <= s@.len() <= 63,
            !ok ==> !valid_ident(s@),
        decreases cs.len() - i,
    {
        let c = cs[i];
        if !(('a' <= c && c <= 'z') || ('A' <= c && c <= 'Z') || ('0' <= c && c <= '9') || c == '_') {
            ok = false;
        }
        i = i + 1;
    }
    if ok {
        Ok(())
    } else {
        let a = concat_str("invalid identifier `", s);
        let m = concat_str(a.as_str(), "`");
        proof {
            assert(m@ =~= invalid_ident_text(s@));
        }
        Err(DbError::Other(m))
    }
}

/// The statement that creates the table of a collection.
pub open spec fn create_table_text(name: Seq<char>, dim: nat) -> Seq<char> {
    "CREATE TABLE IF NOT EXISTS "@ + name + " (id TEXT PRIMARY KEY, embedding vector("@ + dec(dim)
        + ") NOT NULL, metadata JSONB NOT NULL DEFAULT '{}'::jsonb)"@
}

/// The statement that creates the table of a collection of `dim`-sized
/// vectors.
pub fn create_table_sql(name: &str, dim: u64) -> (r: String)
    ensures
        r@ == create_table_text(name@, dim as nat),
{
    let d = format_u64(dim);
    let a = concat_str("CREATE TABLE IF NOT EXISTS ", name);
    let b = concat_str(a.as_str(), " (id TEXT PRIMARY KEY, embedding vector(");
    let c = concat_str(b.as_str(), d.as_str());
    let r = concat_str(c.as_str(), ") NOT NULL, metadata JSONB NOT NULL DEFAULT '{}'::jsonb)");
    proof {
        assert(r@ =~= create_table_text(name@, dim as nat));
    }
    r
}

/// The statement that drops the table of a collection.
pub fn drop_table_sql(name: &str) -> (r: String)
    ensures
        r@ == "DROP TABLE IF EXISTS "@ + name@,
{
    concat_str("DROP TABLE IF EXISTS ", name)
}

/// The placeholder group of the `i`-th row of a multi-row insert.
pub open spec fn placeholder_group(i: nat) -> Seq<char> {
    "($"@ + dec(3 * i + 1) + ",$"@ + dec(3 * i + 2) + "::vector,$"@ + dec(3 * i + 3) + "::jsonb)"@
}

/// The placeholder groups of `n` rows, separated by commas.
pub open spec fn placeholders_text(n: nat) -> Seq<char>
    decreases n,
{
    if n == 0 {
        Seq::empty()
    } else if n == 1 {
        placeholder_group(0)
    } else {
        placeholders_text((n - 1) as nat) + ","@ + placeholder_group((n - 1) as nat)
    }
}

/// The placeholders of a multi-row insert of `n` rows: `($1,$2::vector,$3::jsonb),...`.
pub fn upsert_placeholders(n: u64) -> (r: String)
    requires
        3 * n <= u64::MAX,
    ensures
        r@ == placeholders_text(n as nat),
{
    let mut out = String::new();
    let mut i: u64 = 0;
    proof {
        assert(out@ =~= placeholders_text(0));
    }
    while i < n
        invariant
            i <= n,
            3 * n <= u64::MAX,
            out@ == placeholders_text(i as nat),
        decreases n - i,
    {
        let base: u64 = i * 3;
        let p1 = format_u64(base + 1);
        let p2 = format_u64(base + 2);
        let p3 = format_u64(base + 3);
        let g1 = concat_str("($", p1.as_str());
        let g2 = concat_str(g1.as_str(), ",$");
        let g3 = concat_str(g2.as_str(), p2.as_str());
        let g4 = concat_str(g3.as_str(), "::vector,$");
        let g5 = concat_str(g4.as_str(), p3.as_str());
        let g = concat_str(g5.as_str(), "::jsonb)");
        proof {
            assert(g@ =~= placeholder_group(i as nat));
        }
        if i > 0 {
            let o1 = concat_str(out.as_str(), ",");
            out = concat_str(o1.as_str(), g.as_str());
            proof {
                assert(out@ =~= placeholders_text((i + 1) as nat));
            }
        } else {
            out = g;
            proof {
                assert(out@ =~= placeholders_text(1));
            }
        }
        i = i + 1;
    }
    out
}

/// The multi-row insert that replaces rows with the same id.
pub open spec fn upsert_text(collection: Seq<char>, placeholders: Seq<char>) -> Seq<char> {
    "INSERT INTO "@ + collection + " (id, embedding, metadata) VALUES "@ + placeholders
        + " ON CONFLICT (id) DO UPDATE SET embedding = EXCLUDED.embedding, metadata = EXCLUDED.metadata"@
}

/// The multi-row insert that replaces rows with the same id.
pub fn upsert_sql(collection: &str, placeholders: &str) -> (r: String)
    ensures
        r@ == upsert_text(collection@, placeholders@),
{
    let a = concat_str("INSERT INTO ", collection);
    let b = concat_str(a.as_str(), " (id, embedding, metadata) VALUES ");
    let c = concat_str(b.as_str(), placeholders);
    let r = concat_str(
        c.as_str(),
        " ON CONFLICT (id) DO UPDATE SET embedding = EXCLUDED.embedding, metadata = EXCLUDED.metadata",
    );
    proof {
        assert(r@ =~= upsert_text(collection@, placeholders@));
    }
    r
}

/// The statement that deletes the rows whose id is in the array `$1`.
pub fn delete_rows_sql(collection: &str) -> (r: String)
    ensures
        r@ == "DELETE FROM "@ + collection@ + " WHERE id = ANY($1)"@,
{
    let a = concat_str("DELETE FROM ", collection);
    concat_str(a.as_str(), " WHERE id = ANY($1)")
}

/// The nearest-neighbour query: rows ordered by the distance of their
/// embedding to `$1`, optionally only those whose metadata contains `$2`.
pub open spec fn search_text(collection: Seq<char>, d: Distance, filtered: bool, limit: i64) -> Seq<char> {
    "SELECT id, metadata, embedding "@ + op_text(d) + " $1::vector AS distance FROM "@ + collection
        + " "@ + (if filtered { "WHERE metadata @> $2"@ } else { Seq::empty() }) + " ORDER BY embedding "@
        + op_text(d) + " $1::vector ASC LIMIT "@ + dec_signed(limit as int)
}

/// The nearest-neighbour query for the `limit` closest rows.
pub fn search_sql(collection: &str, d: Distance, filtered: bool, limit: i64) -> (r: String)
    ensures
        r@ == search_text(collection@, d, filtered, limit),
{
    let op = op_str(d);
    let f = if filtered { "WHERE metadata @> $2" } else { "" };
    proof {
        reveal_strlit("");
        assert(f@ == (if filtered { "WHERE metadata @> $2"@ } else { Seq::<char>::empty() }));
    }
    let l = format_i64(limit);
    let s1 = concat_str("SELECT id, metadata, embedding ", op);
    let s2 = concat_str(s1.as_str(), " $1::vector AS distance FROM ");
    let s3 = concat_str(s2.as_str(), collection);
    let s4 = concat_str(s3.as_str(), " ");
    let s5 = concat_str(s4.as_str(), f);
    let s6 = concat_str(s5.as_str(), " ORDER BY embedding ");
    let s7 = concat_str(s6.as_str(), op);
    let s8 = concat_str(s7.as_str(), " $1::vector ASC LIMIT ");
    let r = concat_str(s8.as_str(), l.as_str());
    proof {
        assert(r@ =~= search_text(collection@, d, filtered, limit));
    }
    r
}

/// The statement that builds an HNSW index over a collection.
pub open spec fn hnsw_index_text(collection: Seq<char>, d: Distance, m: u32, ef_construction: u32) -> Seq<char> {
    "CREATE INDEX IF NOT EXISTS "@ + collection + "_hnsw ON "@ + collection + " USING hnsw (embedding "@
        + index_op_text(d) + ") WITH (m = "@ + dec(m as nat) + ", ef_construction = "@ + dec(
        ef_construction as nat,
    ) + ")"@
}

/// The statement that builds an HNSW index over a collection.
pub fn hnsw_index_sql(collection: &str, d: Distance, m: u32, ef_construction: u32) -> (r: String)
    ensures
        r@ == hnsw_index_text(collection@, d, m, ef_construction),
{
    let op = index_op(d);
    let ms = format_u64(m as u64);
    let es = format_u64(ef_construction as u64);
    let s1 = concat_str("CREATE INDEX IF NOT EXISTS ", collection);
    let s2 = concat_str(s1.as_str(), "_hnsw ON ");
    let s3 = concat_str(s2.as_str(), collection);
    let s4 = concat_str(s3.as_str(), " USING hnsw (embedding ");
    let s5 = concat_str(s4.as_str(), op);
    let s6 = concat_str(s5.as_str(), ") WITH (m = ");
    let s7 = concat_str(s6.as_str(), ms.as_str());
    let s8 = concat_str(s7.as_str(), ", ef_construction = ");
    let s9 = concat_str(s8.as_str(), es.as_str());
    let r = concat_str(s9.as_str(), ")");
    proof {
        assert(r@ =~= hnsw_index_text(collection@, d, m, ef_construction));
    }
    r
}

/// The statement that builds an IVFFlat index over a collection.
pub open spec fn ivfflat_index_text(collection: Seq<char>, d: Distance, lists: u32) -> Seq<char> {
    "CREATE INDEX IF NOT EXISTS "@ + collection + "_ivf ON "@ + collection + " USING ivfflat (embedding "@
        + index_op_text(d) + ") WITH (lists = "@ + dec(lists as nat) + ")"@
}

/// The statement that builds an IVFFlat index over a collection.
pub fn ivfflat_index_sql(collection: &str, d: Distance, lists: u32) -> (r: String)
    ensures
        r@ == ivfflat_index_text(collection@, d, lists),
{
    let op = index_op(d);
    let ls = format_u64(lists as u64);
    let s1 = concat_str("CREATE INDEX IF NOT EXISTS ", collection);
    let s2 = concat_str(s1.as_str(), "_ivf ON ");
    let s3 = concat_str(s2.as_str(), collection);
    let s4 = concat_str(s3.as_str(), " USING ivfflat (embedding ");
    let s5 = concat_str(s4.as_str(), op);
    let s6 = concat_str(s5.as_str(), ") WITH (lists = ");
    let s7 = concat_str(s6.as_str(), ls.as_str());
    let r = concat_str(s7.as_str(), ")");
    proof {
        assert(r@ =~= ivfflat_index_text(collection@, d, lists));
    }
    r
}

} // verus!
