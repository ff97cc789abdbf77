//! Moving usage counters out of insight files and into this machine's usage
//! store.
//!
//! Only files that keep a metadata footer are rewritten, and only when the
//! insight renders differently from the file; insights recorded in older
//! layouts are left exactly as they are.

use vstd::prelude::*;
use crate::insight::{carries_usage, has_metadata_footer, Insight, InsightView, usage_of_insight};
use crate::insight_format::{metadata_candidate_spec, split_frontmatter_spec};
use crate::text::{chars_eq, chars_of, string_of};
use crate::usage::{adopt_counts, adopted_all, found_entries, key_spec, Usage, UsageStore};

verus! {

broadcast use vstd::string::group_string_axioms;

/// One insight file of the store, as the migration sees it.
pub struct StoredFile {
    /// What the file holds.
    pub content: String,
    /// Whether the file's trailing metadata block reads as YAML.
    pub footer_reads: bool,
    /// For a file that keeps a metadata footer: the insight it holds, and
    /// the file that insight renders to now.
    pub parsed: Option<(Insight, String)>,
}

/// Whether a file keeps its metadata in a trailing block.
pub open spec fn keeps_footer(f: StoredFile) -> bool {
    match split_frontmatter_spec(f.content@) {
        Ok((_, body)) => metadata_candidate_spec(body) is Some && f.footer_reads,
        Err(_) => false,
    }
}

/// Whether the file recorded any use of its insight.
pub open spec fn carries(i: InsightView) -> bool {
    i.retrieval_count > 0 || i.search_hit_count > 0 || i.last_accessed is Some
}

/// The counters the files carry, by key, in order: one for each file that
/// keeps a footer and recorded some use.
pub open spec fn found_in(files: Seq<StoredFile>) -> Seq<(Seq<char>, Usage)>
    decreases files.len(),
{
    if files.len() == 0 {
        seq![]
    } else {
        let rest = found_in(files.drop_last());
        let f = files.last();
        match f.parsed {
            Some((i, _)) => if keeps_footer(f) && carries(i@) {
                rest.push((key_spec(i@.topic, i@.name), usage_of_insight(i@)))
            } else {
                rest
            },
            None => rest,
        }
    }
}

/// Whether the migration rewrites a file: it keeps a footer, and its insight
/// renders differently from what the file holds.
pub open spec fn rewritten(f: StoredFile) -> bool {
    keeps_footer(f) && match f.parsed {
        Some((_, rendered)) => rendered@ != f.content@,
        None => false,
    }
}

/// Moves the usage counters the store's insight files carry into the usage
/// store, keeping whichever count is higher, and says which files are to be
/// rewritten with the insight as it renders now.
pub fn migrate_usage_footers(files: &Vec<StoredFile>, store: &mut UsageStore) -> (r: Vec<bool>)
    requires
        old(store).wf(),
        forall|k: int| 0 <= k < files@.len() && keeps_footer(#[trigger] files@[k]) ==> files@[k].parsed is Some,
    ensures
        final(store).wf(),
        final(store).view_map() == adopted_all(old(store).view_map(), found_in(files@)),
        r@.len() == files@.len(),
        forall|k: int| 0 <= k < files@.len() ==> #[trigger] r@[k] == rewritten(files@[k]),
{
    let mut found: Vec<(String, String, Usage)> = Vec::new();
    let mut rewrites: Vec<bool> = Vec::new();
    let mut i: usize = 0;
    while i < files.len()
        invariant
            i <= files@.len(),
            forall|k: int| 0 <= k < files@.len() && keeps_footer(#[trigger] files@[k]) ==> files@[k].parsed is Some,
            found_entries(found@) == found_in(files@.take(i as int)),
            rewrites@.len() == i,
            forall|k: int| 0 <= k < i ==> #[trigger] rewrites@[k] == rewritten(files@[k]),
        decreases files@.len() - i,
    {
        let f = &files[i];
        proof {
            assert(files@.take(i + 1).drop_last() =~= files@.take(i as int));
            assert(files@.take(i + 1).last() == files@[i as int]);
        }
        let footer = has_metadata_footer(f.content.as_str(), f.footer_reads);
        let mut rewrite = false;
        if footer {
            match &f.parsed {
                Some((insight, rendered)) => {
                    if carries_usage(insight) {
                        let ghost before = found@;
                        found.push(
                            (
                                string_of(chars_of(insight.topic.as_str()).as_slice()),
                                string_of(chars_of(insight.name.as_str()).as_slice()),
                                Usage {
                                    retrieval_count: insight.retrieval_count,
                                    search_hit_count: insight.search_hit_count,
                                    last_accessed: insight.last_accessed,
                                },
                            ),
                        );
                        proof {
                            assert(found_entries(found@) =~= found_entries(before).push(
                                (key_spec(insight@.topic, insight@.name), usage_of_insight(insight@)),
                            ));
                        }
                    }
                    rewrite = !chars_eq(
                        chars_of(rendered.as_str()).as_slice(),
                        chars_of(f.content.as_str()).as_slice(),
                    );
                },
                None => {},
            }
        }
        rewrites.push(rewrite);
        i = i + 1;
    }
    proof {
        assert(files@.take(files@.len() as int) =~= files@);
    }
    adopt_counts(store, found);
    rewrites
}

/// Whether a file is as a migration leaves it: if it keeps a footer, its
/// insight renders to exactly what the file holds and carries no counters.
pub open spec fn settled(f: StoredFile) -> bool {
    match f.parsed {
        Some((i, rendered)) => keeps_footer(f) ==> rendered@ == f.content@ && !carries(i@),
        None => true,
    }
}

proof fn lemma_nothing_found(files: Seq<StoredFile>)
    requires
        forall|k: int| 0 <= k < files.len() ==> settled(#[trigger] files[k]),
    ensures
        found_in(files) == Seq::<(Seq<char>, Usage)>::empty(),
    decreases files.len(),
{
    if files.len() > 0 {
        assert forall|k: int| 0 <= k < files.drop_last().len() implies settled(#[trigger] files.drop_last()[k]) by {
            assert(files.drop_last()[k] == files[k]);
        }
        lemma_nothing_found(files.drop_last());
        assert(settled(files[files.len() - 1]));
    }
}

/// Migrating again changes nothing: over files that are as a migration
/// leaves them, no file is rewritten, no counters are found, and the usage
/// store keeps exactly what it held.
pub proof fn law_migrating_again_changes_nothing(files: Seq<StoredFile>, held: Map<Seq<char>, Usage>)
    requires
        forall|k: int| 0 <= k < files.len() ==> settled(#[trigger] files[k]),
    ensures
        forall|k: int| 0 <= k < files.len() ==> !rewritten(#[trigger] files[k]),
        found_in(files) == Seq::<(Seq<char>, Usage)>::empty(),
        adopted_all(held, found_in(files)) == held,
{
    lemma_nothing_found(files);
    assert forall|k: int| 0 <= k < files.len() implies !rewritten(#[trigger] files[k]) by {
        assert(settled(files[k]));
    }
}

/// Whether a file brings no counters to the usage store: it keeps no
/// metadata footer, or its footer records no use of its insight.
pub open spec fn brings_no_counters(f: StoredFile) -> bool {
    !keeps_footer(f) || match f.parsed {
        Some((i, _)) => !carries(i@),
        None => true,
    }
}

/// A file that brings no counters changes nothing: taking it out of the store
/// leaves the counters found exactly as they are, and a file without a
/// metadata footer is never rewritten.
pub proof fn law_files_without_counters_add_nothing(files: Seq<StoredFile>, k: int)
    requires
        0 <= k < files.len(),
        brings_no_counters(files[k]),
    ensures
        found_in(files.remove(k)) == found_in(files),
        !keeps_footer(files[k]) ==> !rewritten(files[k]),
    decreases files.len(),
{
    if k == files.len() - 1 {
        assert(files.remove(k) =~= files.drop_last());
    } else {
        law_files_without_counters_add_nothing(files.drop_last(), k);
        assert(files.remove(k).drop_last() =~= files.drop_last().remove(k));
        assert(files.remove(k).last() == files.last());
    }
}

} // verus!
