//! The query texts that the storage layer sends to the graph database:
//! vector, content and pattern searches, graph traversal and expansion
//! along entanglement edges, metadata filters, and the edge reads and
//! updates of the decay worker.
use vstd::prelude::*;
use crate::text::{decimal, push_decimal};

verus! {

/// Head of the vector search, up to the query vector.
pub const VEC1: &'static str = "SELECT *, vector::similarity::cosine(metadata.embedding, ";

/// Middle of the vector search, up to the limit.
pub const VEC2: &'static str = ") AS score\n                FROM memory\n                WHERE metadata.embedding != NULL\n                ORDER BY score DESC\n                LIMIT ";

/// The content search, up to the limit.
pub const CONTENT1: &'static str = "SELECT * FROM memory\n                 WHERE content.text CONTAINS $query\n                 ORDER BY created_at DESC\n                 LIMIT ";

/// The pattern search, up to the limit.
pub const PATTERN1: &'static str = "SELECT * FROM memory\n                 WHERE content.text LIKE $pattern\n                 OR metadata.keywords CONTAINS $query\n                 ORDER BY metadata.importance DESC\n                 LIMIT ";

/// Head of the expansion query, up to the seed records.
pub const EXP1: &'static str = "\n                SELECT DISTINCT ->entangled[WHERE strength >= $min_strength].out.*\n                FROM ";

/// Tail of the expansion query.
pub const EXP2: &'static str = "\n            ";

/// Head of the hybrid search, up to the query vector.
pub const H1: &'static str = "\n                    -- CTE for vector similarity seeds\n                    LET $seeds = (\n                        SELECT id,\n                               vector::similarity::cosine(metadata.embedding, ";

/// Hybrid search, from the query vector to the seed limit.
pub const H2: &'static str = ") AS vector_score\n                        FROM memory\n                        WHERE metadata.embedding != NULL\n                        ORDER BY vector_score DESC\n                        LIMIT ";

/// Hybrid search, from the seed limit to the expansion depth.
pub const H3: &'static str = "\n                    );\n\n                    -- Hybrid query: seeds + multi-hop graph expansion\n                    SELECT DISTINCT m.* FROM memory m\n                    WHERE m.id IN (SELECT VALUE id FROM $seeds)  -- Include seed memories\n                    OR m.id IN (\n                        -- Multi-hop graph expansion using UNION pattern (depths 1..";

/// Hybrid search, from the expansion depth to the expansion selects.
pub const H4: &'static str = ")\n                        SELECT DISTINCT VALUE id FROM (";

/// Hybrid search, from the expansion selects to the limit.
pub const H5: &'static str = ")\n                    )\n                    LIMIT ";

/// Tail of the hybrid search.
pub const H6: &'static str = ";\n                ";

/// Head of the plain vector search of a hybrid search without expansion.
pub const P1: &'static str = "\n                    SELECT *,\n                           vector::similarity::cosine(metadata.embedding, ";

/// Middle of the plain vector search, up to the limit.
pub const P2: &'static str = ") AS vector_score\n                    FROM memory\n                    WHERE metadata.embedding != NULL\n                    ORDER BY vector_score DESC\n                    LIMIT ";

/// Tail of the plain vector search.
pub const P3: &'static str = "\n                ";

/// Head of one expansion select of a hybrid search.
pub const SEED1: &'static str = "SELECT DISTINCT out AS id FROM (SELECT VALUE id FROM $seeds)";

/// Tail of one expansion select: only strong edges are followed.
pub const SEED2: &'static str = " WHERE strength >= 0.7";

/// The parts joined with `sep` between each two.
pub open spec fn joined(parts: Seq<Seq<char>>, sep: Seq<char>) -> Seq<char>
    decreases parts.len(),
{
    if parts.len() == 0 {
        Seq::empty()
    } else if parts.len() == 1 {
        parts[0]
    } else {
        joined(parts.drop_last(), sep) + sep + parts.last()
    }
}

/// Joins the parts with `sep` between each two.
pub fn join(parts: &Vec<String>, sep: &str) -> (r: String)
    ensures
        r@ == joined(parts@.map_values(|p: String| p@), sep@),
{
    let n = parts.len();
    let mut out = String::new();
    let mut i: usize = 0;
    while i < n
        invariant
            n == parts@.len(),
            i <= n,
            out@ == joined(parts@.map_values(|p: String| p@).subrange(0, i as int), sep@),
        decreases n - i,
    {
        let ghost ps = parts@.map_values(|p: String| p@);
        proof {
            assert(ps.subrange(0, i + 1).drop_last() =~= ps.subrange(0, i as int));
            assert(ps.subrange(0, i + 1).last() == parts@[i as int]@);
        }
        if i > 0 {
            out.append(sep);
        } else {
            assert(ps.subrange(0, 1).len() == 1);
            assert(out@ =~= Seq::<char>::empty());
        }
        out.append(parts[i].as_str());
        i = i + 1;
    }
    assert(parts@.map_values(|p: String| p@).subrange(0, n as int) =~= parts@.map_values(|p: String| p@));
    out
}

/// The record ID of a memory: "memory:<id>".
pub fn memory_record_id(id: &str) -> (r: String)
    ensures
        r@ == "memory:"@ + id@,
{
    let mut s = String::from_str("memory:");
    s.append(id);
    s
}

/// The vector search over memories with an embedding, best first.
pub open spec fn vector_search_text(vector_json: Seq<char>, limit: nat) -> Seq<char> {
    VEC1@ + vector_json + VEC2@ + decimal(limit) + ";"@
}

/// The vector search query; `vector_json` is the query vector written as
/// a JSON array.
pub fn vector_search_query(vector_json: &str, limit: usize) -> (r: String)
    ensures
        r@ == vector_search_text(vector_json@, limit as nat),
{
    let mut s = String::from_str(VEC1);
    s.append(vector_json);
    s.append(VEC2);
    push_decimal(&mut s, limit as u64);
    s.append(";");
    s
}

/// The content search, most recent first; the text searched for is bound
/// as `$query`.
pub fn content_search_query(limit: usize) -> (r: String)
    ensures
        r@ == CONTENT1@ + decimal(limit as nat),
{
    let mut s = String::from_str(CONTENT1);
    push_decimal(&mut s, limit as u64);
    s
}

/// The pattern search, most important first; the pattern is bound as
/// `$pattern` and the text as `$query`.
pub fn pattern_search_query(limit: usize) -> (r: String)
    ensures
        r@ == PATTERN1@ + decimal(limit as nat),
{
    let mut s = String::from_str(PATTERN1);
    push_decimal(&mut s, limit as u64);
    s
}

/// The pattern bound for a pattern search: the text between two '%'
/// wildcards.
pub fn wildcard_pattern(query: &str) -> (r: String)
    ensures
        r@ == "%"@ + query@ + "%"@,
{
    let mut s = String::from_str("%");
    s.append(query);
    s.append("%");
    s
}

/// The path of `depth` hops along entanglement edges, then to the target
/// records: "->entangled", then "->memory->entangled" for each further
/// hop, then ".out.*".
pub open spec fn hop_chain(depth: nat) -> Seq<char>
    decreases depth,
{
    if depth == 0 {
        Seq::empty()
    } else if depth == 1 {
        "->entangled"@
    } else {
        hop_chain((depth - 1) as nat) + "->memory"@ + "->entangled"@
    }
}

/// The depth a traversal uses: the one asked for, kept within 1 to 256.
pub open spec fn traversal_depth(max_depth: nat) -> nat {
    if max_depth < 1 {
        1
    } else if max_depth > 256 {
        256
    } else {
        max_depth
    }
}

/// The selects of a traversal, one per depth from 1 to `depth`.
pub open spec fn traversal_selects(depth: nat) -> Seq<Seq<char>> {
    Seq::new(depth, |i: int| "SELECT "@ + hop_chain((i + 1) as nat) + ".out.*"@ + " FROM $memory_id"@)
}

/// A traversal asked for `max_depth` hops has one select per depth, from
/// one hop up to `max_depth` when that is between 1 and 256; a depth of 0
/// gives one hop and a depth above 256 gives 256. The select at position
/// `k` follows `k + 1` entanglement edges.
pub proof fn lemma_traversal_covers_each_depth(max_depth: nat)
    ensures
        1 <= max_depth <= 256 ==> traversal_selects(traversal_depth(max_depth)).len() == max_depth,
        max_depth == 0 ==> traversal_selects(traversal_depth(max_depth)).len() == 1,
        max_depth > 256 ==> traversal_selects(traversal_depth(max_depth)).len() == 256,
        forall|k: int|
            0 <= k < traversal_selects(traversal_depth(max_depth)).len() ==> #[trigger] traversal_selects(
                traversal_depth(max_depth),
            )[k] == "SELECT "@ + hop_chain((k + 1) as nat) + ".out.*"@ + " FROM $memory_id"@
                && entangled_hops(hop_chain((k + 1) as nat)) == k + 1,
{
    assert forall|k: int| 0 <= k < traversal_selects(traversal_depth(max_depth)).len() implies entangled_hops(
        #[trigger] hop_chain((k + 1) as nat),
    ) == k + 1 by {
        lemma_hop_chain_hops((k + 1) as nat);
    }
}

/// The number of entanglement edges a hop path follows: the occurrences of
/// "->entangled" ending a run of its text.
pub open spec fn entangled_hops(s: Seq<char>) -> int
    decreases s.len(),
{
    if s.len() < 11 {
        0
    } else if s.subrange(s.len() - 11, s.len() as int) == "->entangled"@ {
        1 + entangled_hops(s.subrange(0, s.len() - 11))
    } else if s.subrange(s.len() - 8, s.len() as int) == "->memory"@ {
        entangled_hops(s.subrange(0, s.len() - 8))
    } else {
        0
    }
}

/// A path of `depth` hops follows `depth` entanglement edges.
proof fn lemma_hop_chain_hops(depth: nat)
    ensures
        entangled_hops(hop_chain(depth)) == depth,
        depth >= 1 ==> hop_chain(depth).len() >= 11,
    decreases depth,
{
    reveal_strlit("->entangled");
    reveal_strlit("->memory");
    if depth == 1 {
        assert("->entangled"@.subrange(0, 11) =~= "->entangled"@);
        assert("->entangled"@.subrange(0, 0) =~= Seq::<char>::empty());
        assert(hop_chain(1) == "->entangled"@);
        assert(entangled_hops(Seq::<char>::empty()) == 0);
        assert(entangled_hops("->entangled"@) == 1 + entangled_hops("->entangled"@.subrange(0, 0)));
    } else if depth > 1 {
        let prev = hop_chain((depth - 1) as nat);
        let s = prev + "->memory"@ + "->entangled"@;
        assert(s.subrange(s.len() - 11, s.len() as int) =~= "->entangled"@);
        let t = s.subrange(0, s.len() - 11);
        assert(t =~= prev + "->memory"@);
        assert(t.subrange(t.len() - 8, t.len() as int) =~= "->memory"@);
        assert(t.subrange(0, t.len() - 8) =~= prev);
        lemma_hop_chain_hops((depth - 1) as nat);
        assert(t.len() >= 11);
        assert(t.subrange(t.len() - 11, t.len() as int) != "->entangled"@) by {
            assert(t.subrange(t.len() - 11, t.len() as int)[10] == 'y');
            assert("->entangled"@[10] == 'd');
        }
        assert(entangled_hops(t) == entangled_hops(prev));
        assert(entangled_hops(s) == 1 + entangled_hops(t));
        assert(hop_chain(depth) == s);
    }
}

/// The traversal of the entanglement graph from `$memory_id`: the distinct
/// memories reached in 1 to `max_depth` hops (kept within 1 to 256).
pub fn traversal_query(max_depth: usize) -> (r: String)
    ensures
        r@ == "SELECT DISTINCT * FROM ("@ + joined(traversal_selects(traversal_depth(max_depth as nat)), " UNION "@) + ") "@,
{
    let safe_depth: usize = if max_depth < 1 {
        1
    } else if max_depth > 256 {
        256
    } else {
        max_depth
    };
    let mut selects: Vec<String> = Vec::new();
    let mut depth: usize = 1;
    while depth <= safe_depth
        invariant
            1 <= depth <= safe_depth + 1,
            safe_depth <= 256,
            selects@.map_values(|p: String| p@) =~= traversal_selects((depth - 1) as nat),
        decreases safe_depth + 1 - depth,
    {
        let mut chain = String::new();
        let mut i: usize = 0;
        while i < depth
            invariant
                i <= depth,
                chain@ == hop_chain(i as nat),
            decreases depth - i,
        {
            if i > 0 {
                chain.append("->memory");
            }
            chain.append("->entangled");
            i = i + 1;
        }
        chain.append(".out.*");
        let mut q = String::from_str("SELECT ");
        q.append(chain.as_str());
        q.append(" FROM $memory_id");
        assert(q@ =~= "SELECT "@ + hop_chain(depth as nat) + ".out.*"@ + " FROM $memory_id"@);
        let ghost before = selects@.map_values(|p: String| p@);
        selects.push(q);
        proof {
            assert(selects@.map_values(|p: String| p@) =~= before.push(q@));
            assert(traversal_selects(depth as nat) =~= traversal_selects((depth - 1) as nat).push(q@));
        }
        depth = depth + 1;
    }
    let union = join(&selects, " UNION ");
    let mut sql = String::from_str("SELECT DISTINCT * FROM (");
    sql.append(union.as_str());
    sql.append(") ");
    sql
}

/// The expansion from seed memories along entanglement edges of at least
/// `$min_strength`; `None` when there are no seeds (nothing is queried).
pub fn expansion_query(memory_ids: &Vec<String>) -> (r: Option<String>)
    ensures
        memory_ids@.len() == 0 ==> r is None,
        memory_ids@.len() > 0 ==> (r matches Some(q) && q@ == EXP1@ + joined(
            memory_ids@.map_values(|id: String| "memory:"@ + id@),
            ", "@,
        ) + EXP2@),
{
    let n = memory_ids.len();
    if n == 0 {
        return None;
    }
    let mut records: Vec<String> = Vec::new();
    let mut i: usize = 0;
    while i < n
        invariant
            n == memory_ids@.len(),
            i <= n,
            records@.map_values(|p: String| p@) =~= memory_ids@.map_values(|id: String| "memory:"@ + id@).subrange(0, i as int),
        decreases n - i,
    {
        let rec = memory_record_id(memory_ids[i].as_str());
        let ghost before = records@;
        records.push(rec);
        proof {
            let f = |p: String| p@;
            let g = |id: String| "memory:"@ + id@;
            assert(records@.map_values(f) =~= before.map_values(f).push(rec@));
            assert(memory_ids@.map_values(g).subrange(0, i + 1) =~= memory_ids@.map_values(g).subrange(0, i as int).push(g(memory_ids@[i as int])));
        }
        i = i + 1;
    }
    let ids = join(&records, ", ");
    let mut sql = String::from_str(EXP1);
    sql.append(ids.as_str());
    sql.append(EXP2);
    proof {
        assert(memory_ids@.map_values(|id: String| "memory:"@ + id@).subrange(0, n as int) =~= memory_ids@.map_values(
            |id: String| "memory:"@ + id@,
        ));
    }
    Some(sql)
}

/// The path of `depth` hops from the seeds: "->entangled", then
/// "->memory->entangled" for each further hop.
pub open spec fn seed_chain(depth: nat) -> Seq<char>
    decreases depth,
{
    if depth <= 1 {
        "->entangled"@
    } else {
        seed_chain((depth - 1) as nat) + "->memory->entangled"@
    }
}

/// The selects of the graph expansion of a hybrid search, one per depth
/// from 1 to `depth`.
pub open spec fn seed_selects(depth: nat) -> Seq<Seq<char>> {
    Seq::new(depth, |i: int| SEED1@ + seed_chain((i + 1) as nat) + SEED2@)
}

/// The depth a hybrid search expands to: the one asked for, at most 5.
pub open spec fn hybrid_depth(expansion_depth: nat) -> nat {
    if expansion_depth > 5 {
        5
    } else {
        expansion_depth
    }
}

/// The hybrid search: with expansion, the `initial_limit` best vector
/// matches as seeds, then the memories reached from them in up to
/// `expansion_depth` hops (at most 5) along strong edges; without, a plain
/// vector search. `vector_json` is the query vector as a JSON array.
pub fn hybrid_search_query(vector_json: &str, initial_limit: usize, limit: usize, expansion_depth: usize) -> (r: String)
    ensures
        hybrid_depth(expansion_depth as nat) > 0 ==> r@ == H1@ + vector_json@ + H2@ + decimal(initial_limit as nat) + H3@
            + decimal(hybrid_depth(expansion_depth as nat)) + H4@ + joined(seed_selects(hybrid_depth(expansion_depth as nat)), " UNION "@)
            + H5@ + decimal(limit as nat) + H6@,
        hybrid_depth(expansion_depth as nat) == 0 ==> r@ == P1@ + vector_json@ + P2@ + decimal(limit as nat) + P3@,
{
    let safe_depth: usize = if expansion_depth > 5 {
        5
    } else {
        expansion_depth
    };
    if safe_depth == 0 {
        let mut s = String::from_str(P1);
        s.append(vector_json);
        s.append(P2);
        push_decimal(&mut s, limit as u64);
        s.append(P3);
        return s;
    }
    let mut selects: Vec<String> = Vec::new();
    let mut depth: usize = 1;
    while depth <= safe_depth
        invariant
            1 <= depth <= safe_depth + 1,
            safe_depth <= 5,
            selects@.map_values(|p: String| p@) =~= seed_selects((depth - 1) as nat),
        decreases safe_depth + 1 - depth,
    {
        let mut chain = String::from_str("->entangled");
        let mut i: usize = 1;
        while i < depth
            invariant
                1 <= i <= depth,
                chain@ == seed_chain(i as nat),
            decreases depth - i,
        {
            chain.append("->memory->entangled");
            i = i + 1;
        }
        let mut q = String::from_str(SEED1);
        q.append(chain.as_str());
        q.append(SEED2);
        assert(q@ =~= SEED1@ + seed_chain(depth as nat) + SEED2@);
        let ghost before = selects@.map_values(|p: String| p@);
        selects.push(q);
        proof {
            assert(selects@.map_values(|p: String| p@) =~= before.push(q@));
            assert(seed_selects(depth as nat) =~= seed_selects((depth - 1) as nat).push(q@));
        }
        depth = depth + 1;
    }
    let union = join(&selects, " UNION ");
    let mut s = String::from_str(H1);
    s.append(vector_json);
    s.append(H2);
    push_decimal(&mut s, initial_limit as u64);
    s.append(H3);
    push_decimal(&mut s, safe_depth as u64);
    s.append(H4);
    s.append(union.as_str());
    s.append(H5);
    push_decimal(&mut s, limit as u64);
    s.append(H6);
    s
}

/// One condition of a metadata filter: the custom field `key` equals the
/// parameter `$param_<i>`.
pub open spec fn metadata_condition(i: nat, key: Seq<char>) -> Seq<char> {
    "metadata.custom."@ + key + " = $param_"@ + decimal(i)
}

/// The query for memories whose custom metadata fields equal the values
/// bound as `$param_0`, `$param_1`, ... (one per key, in order); with no
/// keys, every memory.
pub fn metadata_filter_query(keys: &Vec<String>) -> (r: String)
    ensures
        keys@.len() == 0 ==> r@ == "SELECT * FROM memory"@,
        keys@.len() > 0 ==> r@ == "SELECT * FROM memory"@ + " WHERE "@ + joined(
            Seq::new(keys@.len(), |i: int| metadata_condition(i as nat, keys@[i]@)),
            " AND "@,
        ),
{
    let n = keys.len();
    let mut conditions: Vec<String> = Vec::new();
    let mut i: usize = 0;
    while i < n
        invariant
            n == keys@.len(),
            i <= n,
            conditions@.map_values(|p: String| p@) =~= Seq::new(i as nat, |j: int| metadata_condition(j as nat, keys@[j]@)),
        decreases n - i,
    {
        let mut c = String::from_str("metadata.custom.");
        c.append(keys[i].as_str());
        c.append(" = $param_");
        push_decimal(&mut c, i as u64);
        assert(c@ =~= metadata_condition(i as nat, keys@[i as int]@));
        let ghost before = conditions@;
        conditions.push(c);
        proof {
            let f = |p: String| p@;
            assert(conditions@.map_values(f) =~= before.map_values(f).push(c@));
        }
        i = i + 1;
    }
    let mut q = String::from_str("SELECT * FROM memory");
    if n > 0 {
        q.append(" WHERE ");
        let all = join(&conditions, " AND ");
        q.append(all.as_str());
    }
    q
}

/// The name of the parameter that the `i`-th metadata condition binds.
pub fn metadata_param_name(i: usize) -> (r: String)
    ensures
        r@ == "param_"@ + decimal(i as nat),
{
    let mut s = String::from_str("param_");
    push_decimal(&mut s, i as u64);
    s
}

/// The read of the edges of a table that touch `$memory_id`.
pub fn edge_select_query(table_name: &str) -> (r: String)
    ensures
        r@ == "SELECT id, in, out, strength, created_at FROM "@ + table_name@
            + " WHERE in = $memory_id OR out = $memory_id"@,
{
    let mut s = String::from_str("SELECT id, in, out, strength, created_at FROM ");
    s.append(table_name);
    s.append(" WHERE in = $memory_id OR out = $memory_id");
    s
}

/// The update of one edge's strength to the parameter `$strength_<i>`.
pub open spec fn edge_update_text(edge_id: Seq<char>, i: nat) -> Seq<char> {
    "UPDATE "@ + edge_id + " SET strength = $strength_"@ + decimal(i) + ";"@
}

/// The batch of updates of edge strengths, one statement per line; the
/// `i`-th edge's new strength is bound as `$strength_<i>`.
pub fn edge_update_batch(edge_ids: &Vec<String>) -> (r: String)
    ensures
        r@ == joined(Seq::new(edge_ids@.len(), |i: int| edge_update_text(edge_ids@[i]@, i as nat)), "\n"@),
{
    let n = edge_ids.len();
    let mut statements: Vec<String> = Vec::new();
    let mut i: usize = 0;
    while i < n
        invariant
            n == edge_ids@.len(),
            i <= n,
            statements@.map_values(|p: String| p@) =~= Seq::new(i as nat, |j: int| edge_update_text(edge_ids@[j]@, j as nat)),
        decreases n - i,
    {
        let mut st = String::from_str("UPDATE ");
        st.append(edge_ids[i].as_str());
        st.append(" SET strength = $strength_");
        push_decimal(&mut st, i as u64);
        st.append(";");
        assert(st@ =~= edge_update_text(edge_ids@[i as int]@, i as nat));
        let ghost before = statements@;
        statements.push(st);
        proof {
            let f = |p: String| p@;
            assert(statements@.map_values(f) =~= before.map_values(f).push(st@));
        }
        i = i + 1;
    }
    join(&statements, "\n")
}


/// A graph query with the paging options appended: " LIMIT <n>" when a
/// limit is given, then " START <n>" when an offset is given.
pub fn paged_query(query: &str, limit: Option<usize>, offset: Option<usize>) -> (r: String)
    ensures
        r@ == query@ + (match limit {
            Some(n) => " LIMIT "@ + decimal(n as nat),
            None => Seq::empty(),
        }) + (match offset {
            Some(n) => " START "@ + decimal(n as nat),
            None => Seq::empty(),
        }),
{
    let mut s = String::from_str(query);
    let ghost base = s@;
    match limit {
        Some(n) => {
            s.append(" LIMIT ");
            push_decimal(&mut s, n as u64);
        },
        None => {
            assert(s@ =~= base + Seq::<char>::empty());
        },
    }
    let ghost mid = s@;
    match offset {
        Some(n) => {
            s.append(" START ");
            push_decimal(&mut s, n as u64);
        },
        None => {
            assert(s@ =~= mid + Seq::<char>::empty());
        },
    }
    s
}

/// Every record of a table.
pub fn select_all_query(table: &str) -> (r: String)
    ensures
        r@ == "SELECT * FROM "@ + table@,
{
    let mut s = String::from_str("SELECT * FROM ");
    s.append(table);
    s
}

/// The records of a table whose attribute equals the value bound as
/// `$value`.
pub fn attribute_match_query(table: &str, attribute: &str) -> (r: String)
    ensures
        r@ == "SELECT * FROM "@ + table@ + " WHERE "@ + attribute@ + " = $value"@,
{
    let mut s = String::from_str("SELECT * FROM ");
    s.append(table);
    s.append(" WHERE ");
    s.append(attribute);
    s.append(" = $value");
    s
}

/// The number of records of a table.
pub fn count_query(table: &str) -> (r: String)
    ensures
        r@ == "SELECT COUNT(*) FROM "@ + table@,
{
    let mut s = String::from_str("SELECT COUNT(*) FROM ");
    s.append(table);
    s
}

/// The transaction that creates one record of a table per item bound in
/// `$items`, with a fresh ULID each.
pub fn batch_create_query(table: &str) -> (r: String)
    ensures
        r@ == "BEGIN TRANSACTION; FOR $item IN $items { CREATE "@ + table@
            + ":ulid() CONTENT $item.properties; }; COMMIT TRANSACTION;"@,
{
    let mut s = String::from_str("BEGIN TRANSACTION; FOR $item IN $items { CREATE ");
    s.append(table);
    s.append(":ulid() CONTENT $item.properties; }; COMMIT TRANSACTION;");
    s
}

/// The transaction that updates each record named in the items bound in
/// `$items`.
pub const BATCH_UPDATE_QUERY: &'static str = "BEGIN TRANSACTION; FOR $item IN $items { UPDATE $item.id CONTENT $item.properties; }; COMMIT TRANSACTION;";

/// The transaction that deletes each record named in `$ids`.
pub const BATCH_DELETE_QUERY: &'static str = "BEGIN TRANSACTION; FOR $id IN $ids { DELETE $id; }; COMMIT TRANSACTION;";

} // verus!
