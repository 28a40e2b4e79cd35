//! The speech-model catalog and the cleanup model's location.
use vstd::prelude::*;
use crate::hardware::{tier_model, tier_rank, Tier};
use crate::text::str_eq;

verus! {

/// One model in the catalog: a whisper.cpp GGML file in a model
/// repository.
#[derive(Clone, Copy)]
pub struct ModelEntry {
    pub id: &'static str,
    pub repo: &'static str,
    pub file: &'static str,
    pub size_mb: u64,
    /// Known checksum of the file, when one has been recorded.
    pub sha256: Option<&'static str>,
}

/// The catalog, smallest model first.
pub open spec fn catalog() -> Seq<ModelEntry> {
    seq![
        ModelEntry { id: "whisper-tiny-en", repo: "ggerganov/whisper.cpp", file: "ggml-tiny.en.bin", size_mb: 75, sha256: None },
        ModelEntry { id: "whisper-base-en", repo: "ggerganov/whisper.cpp", file: "ggml-base.en.bin", size_mb: 148, sha256: None },
        ModelEntry { id: "whisper-small-en", repo: "ggerganov/whisper.cpp", file: "ggml-small.en.bin", size_mb: 488, sha256: None },
        ModelEntry { id: "whisper-medium-en", repo: "ggerganov/whisper.cpp", file: "ggml-medium.en.bin", size_mb: 1500, sha256: None },
        ModelEntry { id: "whisper-large-v3-turbo", repo: "ggerganov/whisper.cpp", file: "ggml-large-v3-turbo.bin", size_mb: 1600, sha256: None },
    ]
}

/// The catalog as a list.
pub fn manifest() -> (m: Vec<ModelEntry>)
    ensures
        m@ == catalog(),
{
    let m = vec![
        ModelEntry { id: "whisper-tiny-en", repo: "ggerganov/whisper.cpp", file: "ggml-tiny.en.bin", size_mb: 75, sha256: None },
        ModelEntry { id: "whisper-base-en", repo: "ggerganov/whisper.cpp", file: "ggml-base.en.bin", size_mb: 148, sha256: None },
        ModelEntry { id: "whisper-small-en", repo: "ggerganov/whisper.cpp", file: "ggml-small.en.bin", size_mb: 488, sha256: None },
        ModelEntry { id: "whisper-medium-en", repo: "ggerganov/whisper.cpp", file: "ggml-medium.en.bin", size_mb: 1500, sha256: None },
        ModelEntry { id: "whisper-large-v3-turbo", repo: "ggerganov/whisper.cpp", file: "ggml-large-v3-turbo.bin", size_mb: 1600, sha256: None },
    ];
    assert(m@ =~= catalog());
    m
}

/// The first entry of `es` whose id is `id`.
pub open spec fn find_entry(es: Seq<ModelEntry>, id: Seq<char>) -> Option<ModelEntry>
    decreases es.len(),
{
    if es.len() == 0 {
        None
    } else if es[0].id@ == id {
        Some(es[0])
    } else {
        find_entry(es.drop_first(), id)
    }
}

/// Looks a model up in the catalog by its id.
pub fn find_model(id: &str) -> (r: Option<ModelEntry>)
    ensures
        r == find_entry(catalog(), id@),
        r matches Some(e) ==> e.id@ == id@,
{
    let m = manifest();
    assert(catalog().skip(0) =~= catalog());
    let mut i: usize = 0;
    while i < m.len()
        invariant
            m@ == catalog(),
            i <= m.len(),
            find_entry(catalog(), id@) == find_entry(catalog().skip(i as int), id@),
        decreases m.len() - i,
    {
        let e = m[i];
        proof {
            assert(catalog().skip(i as int).drop_first() =~= catalog().skip(i + 1));
        }
        if str_eq(e.id, id) {
            return Some(e);
        }
        i = i + 1;
    }
    None
}

/// Where the transcript-cleanup model comes from.
#[derive(Clone, Copy)]
pub struct CleanupModelEntry {
    pub repo: &'static str,
    pub file: &'static str,
    pub size_mb: u64,
}

/// The cleanup model.
pub fn cleanup_model() -> (e: CleanupModelEntry)
    ensures
        e.repo@ == "Qwen/Qwen2.5-1.5B-Instruct-GGUF"@,
        e.file@ == "qwen2.5-1.5b-instruct-q4_k_m.gguf"@,
        e.size_mb == 1100,
{
    CleanupModelEntry {
        repo: "Qwen/Qwen2.5-1.5B-Instruct-GGUF",
        file: "qwen2.5-1.5b-instruct-q4_k_m.gguf",
        size_mb: 1100,
    }
}

// ---------------------------------------------------------------------
// Laws
// ---------------------------------------------------------------------

proof fn reveal_catalog_ids()
    ensures
        "whisper-tiny-en"@ != "whisper-base-en"@,
        "whisper-tiny-en"@.len() == 15,
        "whisper-base-en"@.len() == 15,
        "whisper-small-en"@.len() == 16,
        "whisper-medium-en"@.len() == 17,
        "whisper-large-v3-turbo"@.len() == 22,
{
    reveal_strlit("whisper-tiny-en");
    reveal_strlit("whisper-base-en");
    reveal_strlit("whisper-small-en");
    reveal_strlit("whisper-medium-en");
    reveal_strlit("whisper-large-v3-turbo");
    assert("whisper-tiny-en"@[8] != "whisper-base-en"@[8]);
}

/// The model of the tier `t`, as the catalog has it.
pub open spec fn tier_entry(t: Tier) -> Option<ModelEntry> {
    find_entry(catalog(), tier_model(t))
}

/// Every tier's model is in the catalog, so looking it up never fails.
pub proof fn law_every_tier_model_is_cataloged(t: Tier)
    ensures
        tier_entry(t) is Some,
        tier_entry(t)->0.id@ == tier_model(t),
{
    reveal_catalog_ids();
    reveal_with_fuel(find_entry, 6);
    let c = catalog();
    assert(c.drop_first().drop_first().drop_first().drop_first()[0] == c[4]);
    assert(c.drop_first().drop_first().drop_first()[0] == c[3]);
    assert(c.drop_first().drop_first()[0] == c[2]);
    assert(c.drop_first()[0] == c[1]);
}

/// A higher tier always runs a larger model.
pub proof fn law_higher_tier_larger_model(t: Tier, u: Tier)
    requires
        tier_rank(t) < tier_rank(u),
    ensures
        tier_entry(t)->0.size_mb < tier_entry(u)->0.size_mb,
{
    law_every_tier_model_is_cataloged(t);
    law_every_tier_model_is_cataloged(u);
    reveal_catalog_ids();
    reveal_with_fuel(find_entry, 6);
    let c = catalog();
    assert(c.drop_first().drop_first().drop_first().drop_first()[0] == c[4]);
    assert(c.drop_first().drop_first().drop_first()[0] == c[3]);
    assert(c.drop_first().drop_first()[0] == c[2]);
    assert(c.drop_first()[0] == c[1]);
}

/// No two catalog entries share an id.
pub proof fn law_catalog_ids_unique()
    ensures
        forall|i: int, j: int|
            0 <= i < j < catalog().len() ==> catalog()[i].id@ != catalog()[j].id@,
{
    reveal_catalog_ids();
    let c = catalog();
    assert forall|i: int, j: int| 0 <= i < j < c.len() implies c[i].id@ != c[j].id@ by {
        assert(c[0].id@.len() == 15 && c[1].id@.len() == 15 && c[2].id@.len() == 16);
        assert(c[3].id@.len() == 17 && c[4].id@.len() == 22);
    }
}

} // verus!
