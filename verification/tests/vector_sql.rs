use uwu_infra::migrations::DbError;
use uwu_infra::vector_sql::{
    create_table_sql, delete_rows_sql, drop_table_sql, hnsw_index_sql, index_op, ivfflat_index_sql,
    op_str, search_sql, upsert_placeholders, upsert_sql, validate_ident, Distance,
};

#[test]
fn identifiers_are_checked() {
    assert!(validate_ident("docs_v2").is_ok());
    assert!(validate_ident(&"a".repeat(63)).is_ok());
    match validate_ident(&"a".repeat(64)) {
        Err(DbError::Other(m)) => assert_eq!(m, format!("invalid identifier `{}`", "a".repeat(64))),
        other => panic!("unexpected {:?}", other),
    }
    match validate_ident("") {
        Err(DbError::Other(m)) => assert_eq!(m, "invalid identifier ``"),
        other => panic!("unexpected {:?}", other),
    }
    assert!(validate_ident("docs; DROP TABLE x").is_err());
    assert!(validate_ident("größe").is_err());
}

#[test]
fn operators_follow_the_distance() {
    assert_eq!(op_str(Distance::Cosine), "<=>");
    assert_eq!(op_str(Distance::L2), "<->");
    assert_eq!(op_str(Distance::Dot), "<#>");
    assert_eq!(index_op(Distance::Cosine), "vector_cosine_ops");
    assert_eq!(index_op(Distance::L2), "vector_l2_ops");
    assert_eq!(index_op(Distance::Dot), "vector_ip_ops");
}

#[test]
fn collection_statements() {
    assert_eq!(
        create_table_sql("docs", 3),
        "CREATE TABLE IF NOT EXISTS docs (id TEXT PRIMARY KEY, embedding vector(3) NOT NULL, metadata JSONB NOT NULL DEFAULT '{}'::jsonb)"
    );
    assert_eq!(drop_table_sql("docs"), "DROP TABLE IF EXISTS docs");
    assert_eq!(delete_rows_sql("docs"), "DELETE FROM docs WHERE id = ANY($1)");
    assert_eq!(
        hnsw_index_sql("docs", Distance::Cosine, 16, 64),
        "CREATE INDEX IF NOT EXISTS docs_hnsw ON docs USING hnsw (embedding vector_cosine_ops) WITH (m = 16, ef_construction = 64)"
    );
    assert_eq!(
        ivfflat_index_sql("docs", Distance::L2, 100),
        "CREATE INDEX IF NOT EXISTS docs_ivf ON docs USING ivfflat (embedding vector_l2_ops) WITH (lists = 100)"
    );
}

#[test]
fn multi_row_upsert() {
    assert_eq!(upsert_placeholders(0), "");
    assert_eq!(upsert_placeholders(1), "($1,$2::vector,$3::jsonb)");
    let p = upsert_placeholders(2);
    assert_eq!(p, "($1,$2::vector,$3::jsonb),($4,$5::vector,$6::jsonb)");
    assert_eq!(
        upsert_sql("docs", &p),
        "INSERT INTO docs (id, embedding, metadata) VALUES ($1,$2::vector,$3::jsonb),($4,$5::vector,$6::jsonb) ON CONFLICT (id) DO UPDATE SET embedding = EXCLUDED.embedding, metadata = EXCLUDED.metadata"
    );
}

#[test]
fn nearest_neighbour_query() {
    assert_eq!(
        search_sql("docs", Distance::Cosine, false, 5),
        "SELECT id, metadata, embedding <=> $1::vector AS distance FROM docs  ORDER BY embedding <=> $1::vector ASC LIMIT 5"
    );
    assert_eq!(
        search_sql("docs", Distance::Dot, true, 2),
        "SELECT id, metadata, embedding <#> $1::vector AS distance FROM docs WHERE metadata @> $2 ORDER BY embedding <#> $1::vector ASC LIMIT 2"
    );
}
