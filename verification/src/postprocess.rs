//! Post-processing orchestration: recovery, extraction, deobfuscation.
//!
//! After a download finishes, recovery runs first when configured; then
//! archives are extracted only when it is safe — never after a failed
//! repair — and finally filenames are deobfuscated. The filesystem and
//! the kernels act outside; the gating and selection rules live here.

use vstd::prelude::*;

use crate::download::DownloadResult;
use crate::par2::Par2Status;
use crate::patterns::{spec_extension, spec_file_name};
use crate::text::{clone_bytes, spec_lower_seq};

verus! {

/// The recognised post-processing options.
#[derive(Clone, Copy)]
pub struct PostProcessingConfig {
    pub auto_par2_repair: bool,
    pub auto_extract_rar: bool,
    pub deobfuscate_file_names: bool,
    pub delete_par2_after_repair: bool,
    pub delete_rar_after_extract: bool,
}

/// Sequences the post-download phases for one directory.
pub struct PostProcessor {
    pub config: PostProcessingConfig,
    pub large_file_threshold: u64,
}

impl PostProcessor {
    pub fn new(config: PostProcessingConfig, large_file_threshold: u64) -> (r: Self)
        ensures
            r.config == config,
            r.large_file_threshold == large_file_threshold,
    {
        PostProcessor { config, large_file_threshold }
    }

    /// The archive-integrity gate: extract only when extraction is on,
    /// and either nothing demanded repair (no broken archives, no
    /// recovery files) or the repair succeeded. Extraction never runs
    /// after a failed repair.
    pub fn should_extract(&self, par2_status: Par2Status, broken_archives: usize) -> (r: bool)
        ensures
            r == (self.config.auto_extract_rar && ((broken_archives == 0 && par2_status
                == Par2Status::NoPar2Files) || par2_status == Par2Status::Success)),
            par2_status is Failed ==> !r,
    {
        self.config.auto_extract_rar && ((broken_archives == 0 && matches!(
            par2_status,
            Par2Status::NoPar2Files,
        )) || matches!(par2_status, Par2Status::Success))
    }
}

/// Is this path a recovery file (by extension, case-insensitively)?
pub open spec fn spec_is_par2_path(p: Seq<u8>) -> bool {
    match spec_extension(p) {
        Some(e) => spec_lower_seq(e) == "par2"@.map_values(|c: char| c as u8),
        None => false,
    }
}

/// The recovery files among the download results, in result order.
pub open spec fn spec_par2_paths(results: Seq<DownloadResult>) -> Seq<Seq<u8>>
    decreases results.len(),
{
    if results.len() == 0 {
        Seq::empty()
    } else {
        spec_par2_paths(results.drop_last()) + if spec_is_par2_path(results.last().path@) {
            seq![results.last().path@]
        } else {
            Seq::<Seq<u8>>::empty()
        }
    }
}

/// Collect the recovery files of a finished download.
pub fn collect_par2_files(results: &Vec<DownloadResult>) -> (r: Vec<Vec<u8>>)
    ensures
        crate::yenc::seq_views(r@) == spec_par2_paths(results@),
{
    let n = results.len();
    let mut r: Vec<Vec<u8>> = Vec::new();
    let mut i: usize = 0;
    proof {
        assert(crate::yenc::seq_views(r@) =~= spec_par2_paths(results@.take(0))) by {
            assert(results@.take(0) =~= Seq::<DownloadResult>::empty());
        }
    }
    while i < n
        invariant
            i <= n,
            n == results@.len(),
            crate::yenc::seq_views(r@) == spec_par2_paths(results@.take(i as int)),
        decreases n - i,
    {
        proof {
            assert(results@.take(i + 1).drop_last() =~= results@.take(i as int));
            assert(results@.take(i + 1).last() == results@[i as int]);
        }
        if crate::patterns::is_par2_file(results[i].path.as_slice()) {
            r.push(clone_bytes(&results[i].path));
            proof {
                assert(crate::yenc::seq_views(r@) =~= spec_par2_paths(results@.take(i + 1)));
            }
        }
        i += 1;
    }
    proof {
        assert(results@.take(n as int) =~= results@);
    }
    r
}

/// The failed-segment count of the first result whose output file has
/// the given name.
pub open spec fn spec_failed_count_for(results: Seq<DownloadResult>, name: Seq<u8>) -> Option<int>
    decreases results.len(),
{
    if results.len() == 0 {
        None
    } else if spec_file_name(results[0].path@) == name {
        Some(results[0].segments_failed as int)
    } else {
        spec_failed_count_for(results.skip(1), name)
    }
}

fn failed_count_for(results: &Vec<DownloadResult>, name: &[u8]) -> (r: Option<usize>)
    ensures
        match r {
            Some(c) => spec_failed_count_for(results@, name@) == Some(c as int),
            None => spec_failed_count_for(results@, name@) is None,
        },
{
    let n = results.len();
    let mut i: usize = 0;
    proof {
        assert(results@.skip(0) =~= results@);
    }
    while i < n
        invariant
            i <= n,
            n == results@.len(),
            spec_failed_count_for(results@, name@) == spec_failed_count_for(
                results@.skip(i as int),
                name@,
            ),
        decreases n - i,
    {
        proof {
            assert(results@.skip(i as int)[0] == results@[i as int]);
            assert(results@.skip(i as int).skip(1) =~= results@.skip(i + 1));
        }
        let fname = crate::patterns::file_name(results[i].path.as_slice());
        if crate::text::eq_bytes(fname.as_slice(), name) {
            return Some(results[i].segments_failed);
        }
        i += 1;
    }
    proof {
        assert(results@.skip(n as int) =~= Seq::<DownloadResult>::empty());
    }
    None
}

/// The archive names whose download lost segments: extracting them
/// would fail, so they mark the directory broken.
pub open spec fn spec_broken_archives(
    rar_names: Seq<Vec<u8>>,
    results: Seq<DownloadResult>,
) -> Seq<Seq<u8>>
    decreases rar_names.len(),
{
    if rar_names.len() == 0 {
        Seq::empty()
    } else {
        spec_broken_archives(rar_names.drop_last(), results) + {
            match spec_failed_count_for(results, rar_names.last()@) {
                Some(c) => if c > 0 {
                    seq![rar_names.last()@]
                } else {
                    Seq::<Seq<u8>>::empty()
                },
                None => Seq::<Seq<u8>>::empty(),
            }
        }
    }
}

/// Which of the directory's archives are broken: those whose download
/// result records failed segments.
pub fn check_archive_integrity(
    rar_names: &Vec<Vec<u8>>,
    results: &Vec<DownloadResult>,
) -> (r: Vec<Vec<u8>>)
    ensures
        crate::yenc::seq_views(r@) == spec_broken_archives(rar_names@, results@),
{
    let n = rar_names.len();
    let mut r: Vec<Vec<u8>> = Vec::new();
    let mut i: usize = 0;
    proof {
        assert(crate::yenc::seq_views(r@) =~= spec_broken_archives(rar_names@.take(0), results@))
            by {
            assert(rar_names@.take(0) =~= Seq::<Vec<u8>>::empty());
        }
    }
    while i < n
        invariant
            i <= n,
            n == rar_names@.len(),
            crate::yenc::seq_views(r@) == spec_broken_archives(
                rar_names@.take(i as int),
                results@,
            ),
        decreases n - i,
    {
        proof {
            assert(rar_names@.take(i + 1).drop_last() =~= rar_names@.take(i as int));
            assert(rar_names@.take(i + 1).last() == rar_names@[i as int]);
        }
        match failed_count_for(results, rar_names[i].as_slice()) {
            Some(c) if c > 0 => {
                r.push(clone_bytes(&rar_names[i]));
                proof {
                    assert(crate::yenc::seq_views(r@) =~= spec_broken_archives(
                        rar_names@.take(i + 1),
                        results@,
                    ));
                }
            },
            _ => {},
        }
        i += 1;
    }
    proof {
        assert(rar_names@.take(n as int) =~= rar_names@);
    }
    r
}

} // verus!
