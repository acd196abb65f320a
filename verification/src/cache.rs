//! The server-side compressed-artifact cache.
//!
//! The cache memoizes one compressed artifact per source file, keyed by
//! the source file's digest, and records what it built in an inventory:
//! an unframed concatenation of records, each three NUL-terminated fields
//! `<artifact_path>\0<source_digest>\0<artifact_digest>\0`. Priming builds
//! every artifact; refreshing reuses an artifact only when the inventory
//! still matches the manifest and the artifact's current digest equals the
//! recorded one, and rebuilds it otherwise.
use vstd::prelude::*;
use vstd::string::StrSliceExecFns;
use vstd::string::StringExecFns;

use crate::compress::pack_bytes;
use crate::compress::spec_pack;
use crate::digest::digest_hex;
use crate::digest::digest_of;
use crate::errors::RepairError;
use crate::manifest::HashedFile;
use crate::manifest::char_index;
use crate::manifest::lemma_char_index_is;

verus! {

/// One inventory triple: where the artifact lies, the digest of the
/// source it was built from, and the digest of the artifact itself.
pub struct InventoryEntry {
    pub artifact_path: String,
    pub source_digest: String,
    pub artifact_digest: String,
}

/// The mathematical content of an inventory: its (artifact_path,
/// source_digest, artifact_digest) triples.
pub open spec fn inventory_model(inv: Seq<InventoryEntry>) -> Seq<(Seq<char>, Seq<char>, Seq<char>)> {
    inv.map_values(|e: InventoryEntry| (e.artifact_path@, e.source_digest@, e.artifact_digest@))
}

/// An inventory field may not hold the NUL separator.
pub open spec fn nul_free(s: Seq<char>) -> bool {
    forall|i: int| 0 <= i < s.len() ==> s[i] != '\u{0}'
}

/// The text of one inventory record: three NUL-terminated fields.
pub open spec fn record_text(a: Seq<char>, s: Seq<char>, d: Seq<char>) -> Seq<char> {
    a + seq!['\u{0}'] + s + seq!['\u{0}'] + d + seq!['\u{0}']
}

/// The whole inventory text for a sequence of triples.
pub open spec fn spec_inventory_text(m: Seq<(Seq<char>, Seq<char>, Seq<char>)>) -> Seq<char>
    decreases m.len(),
{
    if m.len() == 0 {
        Seq::empty()
    } else {
        record_text(m[0].0, m[0].1, m[0].2) + spec_inventory_text(m.drop_first())
    }
}

/// The first NUL-terminated field of `s` and everything after its NUL;
/// text without a NUL is one unterminated field with nothing after it.
pub open spec fn split_first_field(s: Seq<char>) -> (Seq<char>, Seq<char>) {
    let j = char_index(s, '\u{0}');
    if 0 <= j < s.len() {
        (s.subrange(0, j), s.subrange(j + 1, s.len() as int))
    } else {
        (s, Seq::empty())
    }
}

/// Prepends one triple to a parse result, keeping failure.
pub open spec fn opt_prepend_triple(
    t: (Seq<char>, Seq<char>, Seq<char>),
    o: Option<Seq<(Seq<char>, Seq<char>, Seq<char>)>>,
) -> Option<Seq<(Seq<char>, Seq<char>, Seq<char>)>> {
    match o {
        Some(rest) => Some(seq![t] + rest),
        None => None,
    }
}

/// What inventory text parses to: fields are consumed in groups of three;
/// a trailing partial group is an error. The final field of the final
/// group may arrive without its NUL terminator.
pub open spec fn spec_parse_inventory(s: Seq<char>) -> Option<
    Seq<(Seq<char>, Seq<char>, Seq<char>)>,
>
    decreases s.len(),
{
    if s.len() == 0 {
        Some(Seq::empty())
    } else {
        let j1 = char_index(s, '\u{0}');
        if !(0 <= j1 < s.len()) {
            None
        } else {
            let a = s.subrange(0, j1);
            let r1 = s.subrange(j1 + 1, s.len() as int);
            let j2 = char_index(r1, '\u{0}');
            if !(0 <= j2 < r1.len()) {
                None
            } else {
                let sd = r1.subrange(0, j2);
                let r2 = r1.subrange(j2 + 1, r1.len() as int);
                let j3 = char_index(r2, '\u{0}');
                if !(0 <= j3 < r2.len()) {
                    if r2.len() == 0 {
                        None
                    } else {
                        Some(seq![(a, sd, r2)])
                    }
                } else {
                    let ad = r2.subrange(0, j3);
                    let r3 = r2.subrange(j3 + 1, r2.len() as int);
                    opt_prepend_triple((a, sd, ad), spec_parse_inventory(r3))
                }
            }
        }
    }
}

/// Appending one triple appends exactly its record.
pub proof fn lemma_inventory_text_snoc(
    m: Seq<(Seq<char>, Seq<char>, Seq<char>)>,
    t: (Seq<char>, Seq<char>, Seq<char>),
)
    ensures
        spec_inventory_text(m.push(t)) =~= spec_inventory_text(m) + record_text(t.0, t.1, t.2),
    decreases m.len(),
{
    let one = m.push(t);
    if m.len() == 0 {
        assert(one.drop_first() =~= Seq::<(Seq<char>, Seq<char>, Seq<char>)>::empty());
        assert(one[0] == t);
        assert(spec_inventory_text(one) == record_text(t.0, t.1, t.2) + spec_inventory_text(
            one.drop_first(),
        ));
    } else {
        assert(one.drop_first() =~= m.drop_first().push(t));
        lemma_inventory_text_snoc(m.drop_first(), t);
        assert(one[0] == m[0]);
        assert(spec_inventory_text(one) == record_text(m[0].0, m[0].1, m[0].2)
            + spec_inventory_text(m.drop_first().push(t)));
    }
}

/// Parsing the inventory text of NUL-free triples recovers exactly the
/// triples, in order.
#[verifier::rlimit(50)]
pub proof fn lemma_inventory_round_trip(m: Seq<(Seq<char>, Seq<char>, Seq<char>)>)
    requires
        forall|i: int|
            0 <= i < m.len() ==> nul_free(#[trigger] m[i].0) && nul_free(m[i].1) && nul_free(
                m[i].2,
            ),
    ensures
        spec_parse_inventory(spec_inventory_text(m)) == Some(m),
    decreases m.len(),
{
    if m.len() == 0 {
    } else {
        let a = m[0].0;
        let sd = m[0].1;
        let ad = m[0].2;
        let text = spec_inventory_text(m);
        let rest_text = spec_inventory_text(m.drop_first());
        assert(text =~= a + seq!['\u{0}'] + sd + seq!['\u{0}'] + ad + seq!['\u{0}']
            + rest_text);
        assert forall|mm: int| 0 <= mm < a.len() implies text[mm] != '\u{0}' by {
            assert(text[mm] == a[mm]);
        }
        assert(text[a.len() as int] == '\u{0}');
        lemma_char_index_is(text, '\u{0}', a.len() as int);
        let r1 = text.subrange(a.len() as int + 1, text.len() as int);
        assert(text.subrange(0, a.len() as int) =~= a);
        assert(r1 =~= sd + seq!['\u{0}'] + ad + seq!['\u{0}'] + rest_text);
        assert forall|mm: int| 0 <= mm < sd.len() implies r1[mm] != '\u{0}' by {
            assert(r1[mm] == sd[mm]);
        }
        assert(r1[sd.len() as int] == '\u{0}');
        lemma_char_index_is(r1, '\u{0}', sd.len() as int);
        let r2 = r1.subrange(sd.len() as int + 1, r1.len() as int);
        assert(r1.subrange(0, sd.len() as int) =~= sd);
        assert(r2 =~= ad + seq!['\u{0}'] + rest_text);
        assert forall|mm: int| 0 <= mm < ad.len() implies r2[mm] != '\u{0}' by {
            assert(r2[mm] == ad[mm]);
        }
        assert(r2[ad.len() as int] == '\u{0}');
        lemma_char_index_is(r2, '\u{0}', ad.len() as int);
        let r3 = r2.subrange(ad.len() as int + 1, r2.len() as int);
        assert(r2.subrange(0, ad.len() as int) =~= ad);
        assert(r3 =~= rest_text);
        let rest = m.drop_first();
        assert forall|i: int|
            0 <= i < rest.len() implies nul_free(#[trigger] rest[i].0) && nul_free(rest[i].1)
            && nul_free(rest[i].2) by {
            assert(rest[i] == m[i + 1]);
            assert(nul_free(m[i + 1].0) && nul_free(m[i + 1].1) && nul_free(m[i + 1].2));
        }
        lemma_inventory_round_trip(rest);
        assert(seq![(a, sd, ad)] + m.drop_first() =~= m);
    }
}

/// Builds the inventory file text for a list of triples.
pub fn format_inventory(inv: &Vec<InventoryEntry>) -> (r: String)
    ensures
        r@ == spec_inventory_text(inventory_model(inv@)),
{
    let mut out = String::new();
    let mut i: usize = 0;
    proof {
        assert(inventory_model(inv@.subrange(0, 0)) =~= Seq::<
            (Seq<char>, Seq<char>, Seq<char>),
        >::empty());
    }
    while i < inv.len()
        invariant
            i <= inv@.len(),
            out@ == spec_inventory_text(inventory_model(inv@.subrange(0, i as int))),
        decreases inv@.len() - i,
    {
        let e = &inv[i];
        out.append(e.artifact_path.as_str());
        out.append("\u{0}");
        out.append(e.source_digest.as_str());
        out.append("\u{0}");
        out.append(e.artifact_digest.as_str());
        out.append("\u{0}");
        proof {
            reveal_strlit("\u{0}");
            assert("\u{0}"@ =~= seq!['\u{0}']);
            let prefix = inventory_model(inv@.subrange(0, i as int));
            let t = (
                inv@[i as int].artifact_path@,
                inv@[i as int].source_digest@,
                inv@[i as int].artifact_digest@,
            );
            lemma_inventory_text_snoc(prefix, t);
            assert(inventory_model(inv@.subrange(0, i + 1)) =~= prefix.push(t));
            assert(out@ =~= spec_inventory_text(inventory_model(inv@.subrange(0, i + 1))));
        }
        i = i + 1;
    }
    proof {
        assert(inv@.subrange(0, inv@.len() as int) =~= inv@);
    }
    out
}

/// Prepends parsed triples to a parse result, keeping failure.
pub open spec fn opt_prepend_triples(
    m: Seq<(Seq<char>, Seq<char>, Seq<char>)>,
    o: Option<Seq<(Seq<char>, Seq<char>, Seq<char>)>>,
) -> Option<Seq<(Seq<char>, Seq<char>, Seq<char>)>> {
    match o {
        Some(rest) => Some(m + rest),
        None => None,
    }
}

/// The position of the first NUL at or after `from`, or the text length.
fn find_nul(body: &str, from: usize, ln: usize) -> (j: usize)
    requires
        from <= ln,
        ln == body@.len(),
    ensures
        from <= j <= ln,
        forall|m: int| from <= m < j ==> body@[m] != '\u{0}',
        j < ln ==> body@[j as int] == '\u{0}',
{
    let mut j: usize = from;
    while j < ln && body.get_char(j) != '\u{0}'
        invariant
            from <= j <= ln,
            ln == body@.len(),
            forall|m: int| from <= m < j ==> body@[m] != '\u{0}',
        decreases ln - j,
    {
        j = j + 1;
    }
    j
}

/// Parses inventory file text into its triples.
///
/// Succeeds exactly when the fields form whole groups of three; a
/// trailing partial group is rejected as a cache invariant violation.
pub fn parse_inventory(body: &str) -> (r: Result<Vec<InventoryEntry>, RepairError>)
    ensures
        r matches Ok(inv) ==> spec_parse_inventory(body@) == Some(inventory_model(inv@)),
        r is Ok <==> spec_parse_inventory(body@) is Some,
        r matches Err(e) ==> e == RepairError::CacheInvariantViolation,
{
    let ln = body.unicode_len();
    let mut inv: Vec<InventoryEntry> = Vec::new();
    let mut i: usize = 0;
    proof {
        assert(body@.subrange(0, ln as int) =~= body@);
        assert(inventory_model(inv@) =~= Seq::<(Seq<char>, Seq<char>, Seq<char>)>::empty());
        let o = spec_parse_inventory(body@);
        if o is Some {
            assert(Seq::<(Seq<char>, Seq<char>, Seq<char>)>::empty() + o->Some_0 =~= o->Some_0);
        }
    }
    while i < ln
        invariant
            i <= ln,
            ln == body@.len(),
            spec_parse_inventory(body@) == opt_prepend_triples(
                inventory_model(inv@),
                spec_parse_inventory(body@.subrange(i as int, ln as int)),
            ),
        decreases ln - i,
    {
        let ghost suffix = body@.subrange(i as int, ln as int);
        let j1 = find_nul(body, i, ln);
        proof {
            assert forall|m: int| 0 <= m < j1 - i implies suffix[m] != '\u{0}' by {
                assert(suffix[m] == body@[i + m]);
            }
            if j1 < ln {
                assert(suffix[j1 - i] == body@[j1 as int]);
            }
            lemma_char_index_is(suffix, '\u{0}', j1 - i);
        }
        if j1 == ln {
            proof {
                assert(spec_parse_inventory(suffix) is None);
            }
            return Err(RepairError::CacheInvariantViolation);
        }
        let ghost a = suffix.subrange(0, j1 - i);
        let ghost r1 = suffix.subrange(j1 - i + 1, suffix.len() as int);
        proof {
            assert(r1 =~= body@.subrange(j1 + 1, ln as int));
        }
        let j2 = find_nul(body, j1 + 1, ln);
        proof {
            assert forall|m: int| 0 <= m < j2 - (j1 + 1) implies r1[m] != '\u{0}' by {
                assert(r1[m] == body@[j1 + 1 + m]);
            }
            if j2 < ln {
                assert(r1[j2 - (j1 + 1)] == body@[j2 as int]);
            }
            lemma_char_index_is(r1, '\u{0}', j2 - (j1 + 1));
        }
        if j2 == ln {
            proof {
                assert(spec_parse_inventory(suffix) is None);
            }
            return Err(RepairError::CacheInvariantViolation);
        }
        let ghost sd = r1.subrange(0, j2 - (j1 + 1));
        let ghost r2 = r1.subrange(j2 - (j1 + 1) + 1, r1.len() as int);
        proof {
            assert(r2 =~= body@.subrange(j2 + 1, ln as int));
        }
        let j3 = find_nul(body, j2 + 1, ln);
        proof {
            assert forall|m: int| 0 <= m < j3 - (j2 + 1) implies r2[m] != '\u{0}' by {
                assert(r2[m] == body@[j2 + 1 + m]);
            }
            if j3 < ln {
                assert(r2[j3 - (j2 + 1)] == body@[j3 as int]);
            }
            lemma_char_index_is(r2, '\u{0}', j3 - (j2 + 1));
        }
        if j3 == ln && j2 + 1 == ln {
            proof {
                assert(r2.len() == 0);
                assert(spec_parse_inventory(suffix) is None);
            }
            return Err(RepairError::CacheInvariantViolation);
        }
        let artifact_path = String::from_str(body.substring_char(i, j1));
        let source_digest = String::from_str(body.substring_char(j1 + 1, j2));
        let artifact_digest = String::from_str(body.substring_char(j2 + 1, j3));
        proof {
            assert(artifact_path@ =~= a);
            assert(source_digest@ =~= sd);
            if j3 == ln {
                assert(artifact_digest@ =~= r2);
            } else {
                assert(artifact_digest@ =~= r2.subrange(0, j3 - (j2 + 1)));
            }
        }
        let ghost old_inv = inv@;
        inv.push(InventoryEntry { artifact_path, source_digest, artifact_digest });
        let ghost t = (inv@[old_inv.len() as int].artifact_path@, inv@[old_inv.len() as int].source_digest@, inv@[old_inv.len() as int].artifact_digest@);
        proof {
            assert(inventory_model(inv@) =~= inventory_model(old_inv).push(t));
        }
        if j3 == ln {
            proof {
                assert(spec_parse_inventory(suffix) == Some(seq![t]));
                assert(inventory_model(old_inv) + seq![t] =~= inventory_model(inv@));
                assert(body@.subrange(ln as int, ln as int) =~= Seq::<char>::empty());
                assert(inventory_model(inv@) + Seq::<(Seq<char>, Seq<char>, Seq<char>)>::empty()
                    =~= inventory_model(inv@));
            }
            i = ln;
        } else {
            let ghost r3 = r2.subrange(j3 - (j2 + 1) + 1, r2.len() as int);
            proof {
                assert(r3 =~= body@.subrange(j3 + 1, ln as int));
                assert(spec_parse_inventory(suffix) == opt_prepend_triple(
                    t,
                    spec_parse_inventory(r3),
                ));
                let o = spec_parse_inventory(r3);
                if o is Some {
                    assert(inventory_model(old_inv) + (seq![t] + o->Some_0) =~= inventory_model(
                        inv@,
                    ) + o->Some_0);
                }
            }
            i = j3 + 1;
        }
    }
    proof {
        assert(body@.subrange(ln as int, ln as int) =~= Seq::<char>::empty());
        assert(inventory_model(inv@) + Seq::<(Seq<char>, Seq<char>, Seq<char>)>::empty()
            =~= inventory_model(inv@));
    }
    Ok(inv)
}

/// Where the artifact for a source file lies under a cache root:
/// `<cache_root>/files/<relative_path>.comp`.
pub open spec fn spec_artifact_path(root: Seq<char>, rel: Seq<char>) -> Seq<char> {
    root + seq!['/', 'f', 'i', 'l', 'e', 's', '/'] + rel + seq!['.', 'c', 'o', 'm', 'p']
}

/// Builds the artifact path for a source file's relative path.
pub fn artifact_path(cache_root: &str, rel_path: &str) -> (r: String)
    ensures
        r@ == spec_artifact_path(cache_root@, rel_path@),
{
    let mut out = String::from_str(cache_root);
    out.append("/files/");
    out.append(rel_path);
    out.append(".comp");
    proof {
        reveal_strlit("/files/");
        reveal_strlit(".comp");
        assert("/files/"@ =~= seq!['/', 'f', 'i', 'l', 'e', 's', '/']);
        assert(".comp"@ =~= seq!['.', 'c', 'o', 'm', 'p']);
        assert(out@ =~= spec_artifact_path(cache_root@, rel_path@));
    }
    out
}

/// What priming one source file contributes to the bookkeeping: its
/// inventory record line, the source's relative path, and the artifact
/// path that the path maps to.
pub struct ChachePart {
    pub compmeta_line: String,
    pub uncompressed_path: String,
    pub compressed_path: String,
}

impl ChachePart {
    /// Packs the three bookkeeping fields of one primed file.
    pub fn new(compmeta_line: String, uncompressed_path: String, compressed_path: String) -> (r:
        ChachePart)
        ensures
            r.compmeta_line == compmeta_line,
            r.uncompressed_path == uncompressed_path,
            r.compressed_path == compressed_path,
    {
        ChachePart { compmeta_line, uncompressed_path, compressed_path }
    }
}

/// The first inventory triple recorded for an artifact path and a source
/// digest, if any.
pub open spec fn spec_lookup(
    m: Seq<(Seq<char>, Seq<char>, Seq<char>)>,
    apath: Seq<char>,
    source_digest: Seq<char>,
) -> Option<(Seq<char>, Seq<char>, Seq<char>)>
    decreases m.len(),
{
    if m.len() == 0 {
        None
    } else if m[0].0 == apath && m[0].1 == source_digest {
        Some(m[0])
    } else {
        spec_lookup(m.drop_first(), apath, source_digest)
    }
}

/// Finds the first inventory entry recorded for an artifact path and a
/// source digest.
pub fn lookup_inventory(
    inv: &Vec<InventoryEntry>,
    artifact_path: &String,
    source_digest: &String,
) -> (r: Option<usize>)
    ensures
        match r {
            Some(k) => k < inv@.len() && spec_lookup(
                inventory_model(inv@),
                artifact_path@,
                source_digest@,
            ) == Some(inventory_model(inv@)[k as int]),
            None => spec_lookup(inventory_model(inv@), artifact_path@, source_digest@) is None,
        },
{
    let ghost m = inventory_model(inv@);
    let mut i: usize = 0;
    proof {
        assert(m.subrange(0, m.len() as int) =~= m);
        assert(m.subrange(i as int, m.len() as int) =~= m);
    }
    while i < inv.len()
        invariant
            i <= inv@.len(),
            m == inventory_model(inv@),
            spec_lookup(m, artifact_path@, source_digest@) == spec_lookup(
                m.subrange(i as int, m.len() as int),
                artifact_path@,
                source_digest@,
            ),
        decreases inv@.len() - i,
    {
        let e = &inv[i];
        proof {
            assert(m.subrange(i as int, m.len() as int)[0] == m[i as int]);
        }
        if e.artifact_path.eq(artifact_path) && e.source_digest.eq(source_digest) {
            return Some(i);
        }
        proof {
            assert(m.subrange(i as int, m.len() as int).drop_first() =~= m.subrange(
                i + 1,
                m.len() as int,
            ));
        }
        i = i + 1;
    }
    proof {
        assert(m.subrange(m.len() as int, m.len() as int) =~= Seq::<
            (Seq<char>, Seq<char>, Seq<char>),
        >::empty());
    }
    None
}

/// Whether the artifact for one manifest entry must be rebuilt: it may be
/// reused only when the inventory records a triple for this artifact path
/// with the manifest's source digest, the artifact exists, and the
/// artifact's current digest equals the recorded one.
pub open spec fn spec_rebuild_needed(
    inv: Seq<(Seq<char>, Seq<char>, Seq<char>)>,
    apath: Seq<char>,
    source_digest: Seq<char>,
    existing: Option<Vec<u8>>,
) -> bool {
    !(spec_lookup(inv, apath, source_digest) matches Some(t) && existing matches Some(b)
        && digest_of(b@) == t.2)
}

/// A corrupted artifact is rebuilt: when the inventory still matches the
/// manifest entry but the artifact's current bytes digest differently
/// from the recorded value, the refresh decision is to rebuild.
pub proof fn lemma_corrupted_artifact_rebuilt(
    inv: Seq<(Seq<char>, Seq<char>, Seq<char>)>,
    apath: Seq<char>,
    source_digest: Seq<char>,
    b: Vec<u8>,
)
    requires
        spec_lookup(inv, apath, source_digest) matches Some(t) ==> digest_of(b@) != t.2,
    ensures
        spec_rebuild_needed(inv, apath, source_digest, Some(b)),
{
}

/// What priming or refreshing the whole cache produces: the bookkeeping
/// parts, the inventory triples and artifact bytes in manifest order,
/// which entries were rebuilt, and whether the inventory file must be
/// rewritten.
pub struct CacheOutcome {
    pub parts: Vec<ChachePart>,
    pub inventory: Vec<InventoryEntry>,
    pub artifacts: Vec<Vec<u8>>,
    pub rebuilt: Vec<bool>,
    pub rewritten: bool,
}

/// Primes the cache entry for one source file: compresses its content
/// and records the artifact's digest.
pub fn prime_entry(cache_root: &str, file: &HashedFile, content: &[u8]) -> (r: (
    ChachePart,
    InventoryEntry,
    Vec<u8>,
))
    ensures
        r.2@ == spec_pack(content@),
        r.1.artifact_path@ == spec_artifact_path(cache_root@, file.path@),
        r.1.source_digest@ == file.hash@,
        r.1.artifact_digest@ == digest_of(spec_pack(content@)),
        r.0.uncompressed_path@ == file.path@,
        r.0.compressed_path@ == spec_artifact_path(cache_root@, file.path@),
        r.0.compmeta_line@ == record_text(
            spec_artifact_path(cache_root@, file.path@),
            file.hash@,
            digest_of(spec_pack(content@)),
        ),
{
    let apath = artifact_path(cache_root, file.get_path());
    let artifact = pack_bytes(content);
    let adigest = digest_hex(artifact.as_slice());
    let mut line = String::new();
    line.append(apath.as_str());
    line.append("\u{0}");
    line.append(file.get_hash());
    line.append("\u{0}");
    line.append(adigest.as_str());
    line.append("\u{0}");
    proof {
        reveal_strlit("\u{0}");
        assert("\u{0}"@ =~= seq!['\u{0}']);
        assert(line@ =~= record_text(apath@, file.hash@, adigest@));
    }
    let part = ChachePart::new(line, String::from_str(file.get_path()), apath.clone());
    let entry = InventoryEntry {
        artifact_path: apath,
        source_digest: String::from_str(file.get_hash()),
        artifact_digest: adigest,
    };
    (part, entry, artifact)
}

/// Decides and performs the refresh of one cache entry: the recorded
/// artifact is reused exactly when the inventory matches and its current
/// digest equals the recorded one; otherwise the artifact is rebuilt from
/// the source content. Either way the returned triple records the digest
/// of the returned artifact bytes.
pub fn refresh_entry(
    cache_root: &str,
    file: &HashedFile,
    content: &[u8],
    old_inventory: &Vec<InventoryEntry>,
    existing: &Option<Vec<u8>>,
) -> (r: (InventoryEntry, Vec<u8>, bool))
    ensures
        r.2 == spec_rebuild_needed(
            inventory_model(old_inventory@),
            spec_artifact_path(cache_root@, file.path@),
            file.hash@,
            *existing,
        ),
        r.1@ == if r.2 {
            spec_pack(content@)
        } else {
            existing->Some_0@
        },
        r.0.artifact_path@ == spec_artifact_path(cache_root@, file.path@),
        r.0.source_digest@ == file.hash@,
        r.0.artifact_digest@ == digest_of(r.1@),
{
    let apath = artifact_path(cache_root, file.get_path());
    let found = lookup_inventory(old_inventory, &apath, &file.hash);
    if let Some(k) = found {
        if let Some(b) = existing {
            let cur = digest_hex(b.as_slice());
            if cur.eq(&old_inventory[k].artifact_digest) {
                let entry = InventoryEntry {
                    artifact_path: apath,
                    source_digest: String::from_str(file.get_hash()),
                    artifact_digest: cur,
                };
                let kept = vstd::slice::slice_to_vec(b.as_slice());
                return (entry, kept, false);
            }
        }
    }
    let artifact = pack_bytes(content);
    let adigest = digest_hex(artifact.as_slice());
    let entry = InventoryEntry {
        artifact_path: apath,
        source_digest: String::from_str(file.get_hash()),
        artifact_digest: adigest,
    };
    (entry, artifact, true)
}

/// Primes the whole cache: compresses every source file, in manifest
/// order, and records each artifact's digest in the inventory. Every
/// triple of the resulting inventory records exactly the digest of its
/// artifact's bytes, and the inventory is to be written out.
pub fn prime_cache(cache_root: &str, files: &Vec<HashedFile>, contents: &Vec<Vec<u8>>) -> (r:
    CacheOutcome)
    requires
        contents@.len() == files@.len(),
    ensures
        r.parts@.len() == files@.len(),
        r.inventory@.len() == files@.len(),
        r.artifacts@.len() == files@.len(),
        r.rebuilt@.len() == files@.len(),
        forall|i: int|
            0 <= i < files@.len() ==> (#[trigger] r.artifacts@[i])@ == spec_pack(
                contents@[i]@,
            ),
        forall|i: int|
            0 <= i < files@.len() ==> (#[trigger] r.inventory@[i]).artifact_path@
                == spec_artifact_path(cache_root@, files@[i].path@)
                && r.inventory@[i].source_digest@ == files@[i].hash@
                && r.inventory@[i].artifact_digest@ == digest_of(r.artifacts@[i]@),
        forall|i: int|
            0 <= i < files@.len() ==> (#[trigger] r.parts@[i]).uncompressed_path@
                == files@[i].path@ && r.parts@[i].compressed_path@ == spec_artifact_path(
                cache_root@,
                files@[i].path@,
            ),
        forall|i: int| 0 <= i < files@.len() ==> r.rebuilt@[i],
        r.rewritten,
{
    let mut parts: Vec<ChachePart> = Vec::new();
    let mut inventory: Vec<InventoryEntry> = Vec::new();
    let mut artifacts: Vec<Vec<u8>> = Vec::new();
    let mut rebuilt: Vec<bool> = Vec::new();
    let mut i: usize = 0;
    while i < files.len()
        invariant
            i <= files@.len(),
            contents@.len() == files@.len(),
            parts@.len() == i,
            inventory@.len() == i,
            artifacts@.len() == i,
            rebuilt@.len() == i,
            forall|k: int|
                0 <= k < i ==> (#[trigger] artifacts@[k])@ == spec_pack(contents@[k]@),
            forall|k: int|
                0 <= k < i ==> (#[trigger] inventory@[k]).artifact_path@ == spec_artifact_path(
                    cache_root@,
                    files@[k].path@,
                ) && inventory@[k].source_digest@ == files@[k].hash@
                    && inventory@[k].artifact_digest@ == digest_of(artifacts@[k]@),
            forall|k: int|
                0 <= k < i ==> (#[trigger] parts@[k]).uncompressed_path@ == files@[k].path@
                    && parts@[k].compressed_path@ == spec_artifact_path(
                    cache_root@,
                    files@[k].path@,
                ),
            forall|k: int| 0 <= k < i ==> rebuilt@[k],
        decreases files@.len() - i,
    {
        let (part, entry, artifact) = prime_entry(cache_root, &files[i], contents[i].as_slice());
        parts.push(part);
        inventory.push(entry);
        artifacts.push(artifact);
        rebuilt.push(true);
        i = i + 1;
    }
    CacheOutcome { parts, inventory, artifacts, rebuilt, rewritten: true }
}

/// Refreshes the whole cache against the manifest: each entry is reused
/// or rebuilt as `spec_rebuild_needed` decides, every triple of the
/// resulting inventory records exactly the digest of its artifact's
/// bytes, and the inventory file is rewritten exactly when some entry was
/// rebuilt.
pub fn refresh_cache(
    cache_root: &str,
    files: &Vec<HashedFile>,
    contents: &Vec<Vec<u8>>,
    old_inventory: &Vec<InventoryEntry>,
    existing: &Vec<Option<Vec<u8>>>,
) -> (r: CacheOutcome)
    requires
        contents@.len() == files@.len(),
        existing@.len() == files@.len(),
    ensures
        r.parts@.len() == files@.len(),
        r.inventory@.len() == files@.len(),
        r.artifacts@.len() == files@.len(),
        r.rebuilt@.len() == files@.len(),
        forall|i: int|
            0 <= i < files@.len() ==> r.rebuilt@[i] == spec_rebuild_needed(
                inventory_model(old_inventory@),
                spec_artifact_path(cache_root@, files@[i].path@),
                files@[i].hash@,
                existing@[i],
            ),
        forall|i: int|
            0 <= i < files@.len() ==> (#[trigger] r.artifacts@[i])@ == if r.rebuilt@[i] {
                spec_pack(contents@[i]@)
            } else {
                existing@[i]->Some_0@
            },
        forall|i: int|
            0 <= i < files@.len() ==> (#[trigger] r.inventory@[i]).artifact_path@
                == spec_artifact_path(cache_root@, files@[i].path@)
                && r.inventory@[i].source_digest@ == files@[i].hash@
                && r.inventory@[i].artifact_digest@ == digest_of(r.artifacts@[i]@),
        forall|i: int|
            0 <= i < files@.len() ==> (#[trigger] r.parts@[i]).uncompressed_path@
                == files@[i].path@ && r.parts@[i].compressed_path@ == spec_artifact_path(
                cache_root@,
                files@[i].path@,
            ),
        r.rewritten == exists|i: int| 0 <= i < files@.len() && r.rebuilt@[i],
{
    let mut parts: Vec<ChachePart> = Vec::new();
    let mut inventory: Vec<InventoryEntry> = Vec::new();
    let mut artifacts: Vec<Vec<u8>> = Vec::new();
    let mut rebuilt: Vec<bool> = Vec::new();
    let mut any_rebuilt = false;
    let mut i: usize = 0;
    while i < files.len()
        invariant
            i <= files@.len(),
            contents@.len() == files@.len(),
            existing@.len() == files@.len(),
            parts@.len() == i,
            inventory@.len() == i,
            artifacts@.len() == i,
            rebuilt@.len() == i,
            forall|k: int|
                0 <= k < i ==> rebuilt@[k] == spec_rebuild_needed(
                    inventory_model(old_inventory@),
                    spec_artifact_path(cache_root@, files@[k].path@),
                    files@[k].hash@,
                    existing@[k],
                ),
            forall|k: int|
                0 <= k < i ==> (#[trigger] artifacts@[k])@ == if rebuilt@[k] {
                    spec_pack(contents@[k]@)
                } else {
                    existing@[k]->Some_0@
                },
            forall|k: int|
                0 <= k < i ==> (#[trigger] inventory@[k]).artifact_path@ == spec_artifact_path(
                    cache_root@,
                    files@[k].path@,
                ) && inventory@[k].source_digest@ == files@[k].hash@
                    && inventory@[k].artifact_digest@ == digest_of(artifacts@[k]@),
            forall|k: int|
                0 <= k < i ==> (#[trigger] parts@[k]).uncompressed_path@ == files@[k].path@
                    && parts@[k].compressed_path@ == spec_artifact_path(
                    cache_root@,
                    files@[k].path@,
                ),
            any_rebuilt == exists|k: int| 0 <= k < i && rebuilt@[k],
        decreases files@.len() - i,
    {
        let f = &files[i];
        let (entry, artifact, was_rebuilt) = refresh_entry(
            cache_root,
            f,
            contents[i].as_slice(),
            old_inventory,
            &existing[i],
        );
        let apath = artifact_path(cache_root, f.get_path());
        let part = ChachePart::new(String::new(), String::from_str(f.get_path()), apath);
        parts.push(part);
        inventory.push(entry);
        artifacts.push(artifact);
        let ghost old_rb = rebuilt@;
        let ghost old_any = any_rebuilt;
        rebuilt.push(was_rebuilt);
        if was_rebuilt {
            any_rebuilt = true;
        }
        proof {
            if was_rebuilt {
                assert(rebuilt@[i as int]);
            } else if old_any {
                let w = choose|k: int| 0 <= k < i && old_rb[k];
                assert(rebuilt@[w]);
            } else {
                assert forall|k: int| 0 <= k < i + 1 implies !rebuilt@[k] by {
                    if k < i {
                        assert(rebuilt@[k] == old_rb[k]);
                    }
                }
            }
            assert(any_rebuilt == exists|k: int| 0 <= k < i + 1 && rebuilt@[k]);
        }
        i = i + 1;
    }
    CacheOutcome { parts, inventory, artifacts, rebuilt, rewritten: any_rebuilt }
}

} // verus!
