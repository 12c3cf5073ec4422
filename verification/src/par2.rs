//! PAR2 verification and repair decisions.
//!
//! The recovery computation itself is an external kernel consumed at
//! its interface; this module owns everything the driver decides: which
//! recovery file is the index, how kernel outcomes map to results, how
//! progress and message callbacks are classified, and how failures are
//! summarised.

use vstd::prelude::*;

use crate::deobfuscate::FileMeta;
use crate::text::{contains_bytes, lit_vec, push_all, spec_contains};
use vstd::string::StringSliceAdditionalSpecFns;

verus! {

/// Outcome of the PAR2 phase, gating extraction.
#[derive(Debug, Clone, Copy, PartialEq, Eq, Structural)]
pub enum Par2Status {
    /// No recovery files were found: extraction may proceed on intact
    /// downloads.
    NoPar2Files,
    /// Verification or repair succeeded: safe to extract.
    Success,
    /// Repair failed: the files may be corrupt; never extract.
    Failed,
}

/// What the kernel is doing, as reported to the progress callback.
#[derive(Debug, Clone, Copy, PartialEq, Eq, Structural)]
pub enum Par2Operation {
    Scanning,
    Loading,
    Verifying,
    Repairing,
}

impl Par2Operation {
    /// The callback encodes the operation as a small integer.
    pub fn from_u8(val: u8) -> (r: Self)
        ensures
            val == 0 ==> r is Scanning,
            val == 1 ==> r is Loading,
            val == 2 ==> r is Verifying,
            val == 3 ==> r is Repairing,
            val > 3 ==> r is Scanning,
    {
        if val == 1 {
            Par2Operation::Loading
        } else if val == 2 {
            Par2Operation::Verifying
        } else if val == 3 {
            Par2Operation::Repairing
        } else {
            Par2Operation::Scanning
        }
    }
}

/// The kernel's return code.
#[derive(Debug, Clone, Copy, PartialEq, Eq, Structural)]
pub enum Par2Result {
    Success,
    RepairPossible,
    RepairNotPossible,
    InvalidArguments,
    InsufficientData,
    RepairFailed,
    FileIOError,
    LogicError,
    MemoryError,
}

impl Par2Result {
    /// The code as the C interface hands it over.
    pub fn from_code(val: u8) -> (r: Self)
        ensures
            val == 0 ==> r is Success,
            val == 1 ==> r is RepairPossible,
            val == 2 ==> r is RepairNotPossible,
            val == 3 ==> r is InvalidArguments,
            val == 4 ==> r is InsufficientData,
            val == 5 ==> r is RepairFailed,
            val == 6 ==> r is FileIOError,
            val == 7 ==> r is LogicError,
            val >= 8 ==> r is MemoryError,
    {
        if val == 0 {
            Par2Result::Success
        } else if val == 1 {
            Par2Result::RepairPossible
        } else if val == 2 {
            Par2Result::RepairNotPossible
        } else if val == 3 {
            Par2Result::InvalidArguments
        } else if val == 4 {
            Par2Result::InsufficientData
        } else if val == 5 {
            Par2Result::RepairFailed
        } else if val == 6 {
            Par2Result::FileIOError
        } else if val == 7 {
            Par2Result::LogicError
        } else {
            Par2Result::MemoryError
        }
    }
}

/// Drives one repair run over the kernel, remembering which index file
/// it was started on.
pub struct Par2Repairer {
    pub par2_file: Vec<u8>,
}

impl Par2Repairer {
    pub fn new(par2_file: &[u8]) -> (r: Self)
        ensures
            r.par2_file@ == par2_file@,
    {
        let mut v: Vec<u8> = Vec::new();
        push_all(&mut v, par2_file);
        Par2Repairer { par2_file: v }
    }

    /// One repair run: the kernel itself executes outside the library,
    /// and hands its return code back here to be judged.
    pub fn repair(&self, do_repair: bool, kernel_result: Par2Result) -> (r: Result<
        (),
        crate::errors::PostProcessingError,
    >)
        ensures
            kernel_result is Success ==> r is Ok,
            kernel_result is RepairPossible && !do_repair ==> r is Ok,
            !(kernel_result is Success) && !(kernel_result is RepairPossible) ==> r is Err,
    {
        self.convert_result(kernel_result, do_repair)
    }

    /// Map a kernel return code to the driver's outcome. Verification
    /// passes on `RepairPossible`; a repair run demands completion.
    pub fn convert_result(&self, result: Par2Result, do_repair: bool) -> (r: Result<
        (),
        crate::errors::PostProcessingError,
    >)
        ensures
            result is Success ==> r is Ok,
            result is RepairPossible && !do_repair ==> r is Ok,
            result is RepairPossible && do_repair ==> match r {
                Err(crate::errors::PostProcessingError::Par2Failed(m)) => m@
                    == "PAR2 repair possible but not completed".spec_bytes(),
                _ => false,
            },
            result is RepairNotPossible ==> match r {
                Err(crate::errors::PostProcessingError::Par2Failed(m)) => m@
                    == "PAR2 repair not possible: insufficient recovery data".spec_bytes(),
                _ => false,
            },
            result is InvalidArguments ==> match r {
                Err(crate::errors::PostProcessingError::Par2Failed(m)) => m@
                    == "Invalid arguments".spec_bytes(),
                _ => false,
            },
            result is InsufficientData ==> match r {
                Err(crate::errors::PostProcessingError::Par2Failed(m)) => m@
                    == "Insufficient critical data in PAR2 files".spec_bytes(),
                _ => false,
            },
            result is RepairFailed ==> match r {
                Err(crate::errors::PostProcessingError::Par2Failed(m)) => m@
                    == "PAR2 repair failed".spec_bytes(),
                _ => false,
            },
            result is FileIOError ==> match r {
                Err(crate::errors::PostProcessingError::Par2Failed(m)) => m@
                    == "File I/O error".spec_bytes(),
                _ => false,
            },
            result is LogicError ==> match r {
                Err(crate::errors::PostProcessingError::Par2Failed(m)) => m@
                    == "Internal logic error".spec_bytes(),
                _ => false,
            },
            result is MemoryError ==> match r {
                Err(crate::errors::PostProcessingError::Par2Failed(m)) => m@
                    == "Out of memory".spec_bytes(),
                _ => false,
            },
    {
        match result {
            Par2Result::Success => Ok(()),
            Par2Result::RepairPossible => {
                if do_repair {
                    Err(
                        crate::errors::PostProcessingError::Par2Failed(
                            lit_vec("PAR2 repair possible but not completed"),
                        ),
                    )
                } else {
                    Ok(())
                }
            },
            Par2Result::RepairNotPossible => Err(
                crate::errors::PostProcessingError::Par2Failed(
                    lit_vec("PAR2 repair not possible: insufficient recovery data"),
                ),
            ),
            Par2Result::InvalidArguments => Err(
                crate::errors::PostProcessingError::Par2Failed(lit_vec("Invalid arguments")),
            ),
            Par2Result::InsufficientData => Err(
                crate::errors::PostProcessingError::Par2Failed(
                    lit_vec("Insufficient critical data in PAR2 files"),
                ),
            ),
            Par2Result::RepairFailed => Err(
                crate::errors::PostProcessingError::Par2Failed(lit_vec("PAR2 repair failed")),
            ),
            Par2Result::FileIOError => Err(
                crate::errors::PostProcessingError::Par2Failed(lit_vec("File I/O error")),
            ),
            Par2Result::LogicError => Err(
                crate::errors::PostProcessingError::Par2Failed(lit_vec("Internal logic error")),
            ),
            Par2Result::MemoryError => Err(
                crate::errors::PostProcessingError::Par2Failed(lit_vec("Out of memory")),
            ),
        }
    }
}

// --- the message stream ----------------------------------------------------

/// Severity of a kernel message.
#[derive(Debug, Clone, Copy, PartialEq, Eq, Structural)]
pub enum MessageLevel {
    Info,
    Warning,
    Error,
}

/// What a kernel message counts towards in the user-visible summary.
#[derive(Debug, Clone, Copy, PartialEq, Eq, Structural)]
pub enum Par2MessageKind {
    Damaged,
    Missing,
    Deobfuscated,
    Repaired,
}

/// Classify one kernel message by its level and marker substring.
pub fn classify_par2_message(level: MessageLevel, text: &[u8]) -> (r: Option<Par2MessageKind>)
    ensures
        level is Warning && spec_contains(text@, "damaged".spec_bytes()) ==> r == Some(
            Par2MessageKind::Damaged,
        ),
        level is Error && spec_contains(text@, "Missing".spec_bytes()) ==> r == Some(
            Par2MessageKind::Missing,
        ),
        level is Info && spec_contains(text@, "obfuscated".spec_bytes()) ==> r == Some(
            Par2MessageKind::Deobfuscated,
        ),
        level is Info && !spec_contains(text@, "obfuscated".spec_bytes()) && spec_contains(
            text@,
            "Repairing".spec_bytes(),
        ) ==> r == Some(Par2MessageKind::Repaired),
        level is Warning && !spec_contains(text@, "damaged".spec_bytes()) ==> r is None,
        level is Error && !spec_contains(text@, "Missing".spec_bytes()) ==> r is None,
        level is Info && !spec_contains(text@, "obfuscated".spec_bytes()) && !spec_contains(
            text@,
            "Repairing".spec_bytes(),
        ) ==> r is None,
{
    match level {
        MessageLevel::Warning => {
            if contains_bytes(text, "damaged".as_bytes()) {
                Some(Par2MessageKind::Damaged)
            } else {
                None
            }
        },
        MessageLevel::Error => {
            if contains_bytes(text, "Missing".as_bytes()) {
                Some(Par2MessageKind::Missing)
            } else {
                None
            }
        },
        MessageLevel::Info => {
            if contains_bytes(text, "obfuscated".as_bytes()) {
                Some(Par2MessageKind::Deobfuscated)
            } else if contains_bytes(text, "Repairing".as_bytes()) {
                Some(Par2MessageKind::Repaired)
            } else {
                None
            }
        },
    }
}

/// Running counts behind the live status line.
pub struct Par2Counts {
    pub damaged: usize,
    pub missing: usize,
    pub obfuscated: usize,
    pub repaired: usize,
}

impl Par2Counts {
    pub fn new() -> (r: Self)
        ensures
            r.damaged == 0 && r.missing == 0 && r.obfuscated == 0 && r.repaired == 0,
    {
        Par2Counts { damaged: 0, missing: 0, obfuscated: 0, repaired: 0 }
    }

    /// Count one classified message.
    pub fn record(&mut self, kind: Par2MessageKind)
        requires
            old(self).damaged < usize::MAX,
            old(self).missing < usize::MAX,
            old(self).obfuscated < usize::MAX,
            old(self).repaired < usize::MAX,
        ensures
            kind is Damaged ==> *final(self) == (Par2Counts {
                damaged: (old(self).damaged + 1) as usize,
                ..*old(self)
            }),
            kind is Missing ==> *final(self) == (Par2Counts {
                missing: (old(self).missing + 1) as usize,
                ..*old(self)
            }),
            kind is Deobfuscated ==> *final(self) == (Par2Counts {
                obfuscated: (old(self).obfuscated + 1) as usize,
                ..*old(self)
            }),
            kind is Repaired ==> *final(self) == (Par2Counts {
                repaired: (old(self).repaired + 1) as usize,
                ..*old(self)
            }),
    {
        match kind {
            Par2MessageKind::Damaged => {
                self.damaged = self.damaged + 1;
            },
            Par2MessageKind::Missing => {
                self.missing = self.missing + 1;
            },
            Par2MessageKind::Deobfuscated => {
                self.obfuscated = self.obfuscated + 1;
            },
            Par2MessageKind::Repaired => {
                self.repaired = self.repaired + 1;
            },
        }
    }
}

// --- selecting the index file ----------------------------------------------

/// Is this name the index recovery file: `.par2` without `.vol`?
pub open spec fn spec_is_main_par2_name(name: Seq<u8>) -> bool {
    match crate::patterns::spec_extension(name) {
        Some(e) => crate::text::spec_lower_seq(e) == "par2"@.map_values(|c: char| c as u8)
            && !spec_contains(
            crate::text::spec_lower_seq(crate::patterns::spec_file_name(name)),
            ".vol"@.map_values(|c: char| c as u8),
        ),
        None => false,
    }
}

/// Which recovery file to hand to the kernel: the first index file
/// (no `.vol` in its name), or failing that the smallest file.
pub fn select_main_par2(files: &Vec<FileMeta>) -> (r: Option<usize>)
    ensures
        match r {
            Some(i) => i < files@.len() && (spec_is_main_par2_name(files@[i as int].name@) && (
            forall|j: int| 0 <= j < i ==> !spec_is_main_par2_name(
                (#[trigger] files@[j]).name@,
            )) || (forall|j: int| 0 <= j < files@.len() ==> !spec_is_main_par2_name(
                (#[trigger] files@[j]).name@,
            )) && (forall|j: int| 0 <= j < files@.len() ==> files@[i as int].size <= (
            #[trigger] files@[j]).size) && (forall|j: int|
                0 <= j < i ==> files@[i as int].size < (#[trigger] files@[j]).size)),
            None => files@.len() == 0,
        },
{
    let n = files.len();
    let mut k: usize = 0;
    while k < n
        invariant
            k <= n,
            n == files@.len(),
            forall|j: int| 0 <= j < k ==> !spec_is_main_par2_name((#[trigger] files@[j]).name@),
        decreases n - k,
    {
        if crate::patterns::is_main_par2(files[k].name.as_slice()) {
            return Some(k);
        }
        k += 1;
    }
    if n == 0 {
        return None;
    }
    // No index file: fall back to the smallest, earliest first on ties.
    let mut best: usize = 0;
    let mut i: usize = 1;
    while i < n
        invariant
            best < i <= n,
            n == files@.len(),
            forall|j: int| 0 <= j < i ==> files@[best as int].size <= (#[trigger] files@[j]).size,
            forall|j: int| 0 <= j < best ==> files@[best as int].size < (#[trigger] files@[j]).size,
        decreases n - i,
    {
        if files[i].size < files[best].size {
            best = i;
        }
        i += 1;
    }
    Some(best)
}

/// A kernel failure naming missing recovery blocks is shown as one
/// fixed sentence; anything else is shown as it came.
pub fn par2_failure_summary(error_msg: &[u8]) -> (r: Vec<u8>)
    ensures
        spec_contains(error_msg@, "Need".spec_bytes()) && spec_contains(
            error_msg@,
            "recovery blocks".spec_bytes(),
        ) ==> r@ == "Not enough recovery data to repair".spec_bytes(),
        !(spec_contains(error_msg@, "Need".spec_bytes()) && spec_contains(
            error_msg@,
            "recovery blocks".spec_bytes(),
        )) ==> r@ == error_msg@,
{
    if contains_bytes(error_msg, "Need".as_bytes()) && contains_bytes(
        error_msg,
        "recovery blocks".as_bytes(),
    ) {
        lit_vec("Not enough recovery data to repair")
    } else {
        let mut v: Vec<u8> = Vec::new();
        push_all(&mut v, error_msg);
        v
    }
}

} // verus!
