//! Decisions taken for each module of the closure while it is copied into
//! the staging tree.
use vstd::prelude::*;
use crate::fields::byte_seqs;
use crate::deps::{answer_lines, bytes_equal};

verus! {

/// Where a module lives.
#[derive(Debug)]
pub enum ModPath {
    /// The module's binary, at this absolute path in the module tree.
    Path(Vec<u8>),
    /// Compiled into the kernel: there is no file.
    Builtin,
}

/// The oracle's answer for a module's location is not one line.
#[derive(Debug, Clone, Copy, PartialEq, Eq, Structural)]
pub enum LocationError {
    NotOneLine,
}

/// `(builtin)`, the location the oracle gives a module compiled into the
/// kernel.
pub open spec fn builtin_marker() -> Seq<u8> {
    seq![40u8, 98u8, 117u8, 105u8, 108u8, 116u8, 105u8, 110u8, 41u8]
}

/// `name:`, the start of the line the oracle echoes, instead of firmware,
/// for a builtin module.
pub open spec fn name_echo() -> Seq<u8> {
    seq![110u8, 97u8, 109u8, 101u8, 58u8]
}

pub open spec fn is_name_echo(line: Seq<u8>) -> bool {
    line.len() >= name_echo().len() && line.subrange(0, name_echo().len() as int) == name_echo()
}

/// The firmware lines of an answer: every line but the name echoes, in order.
pub open spec fn firmware_lines(ls: Seq<Seq<u8>>) -> Seq<Seq<u8>>
    decreases ls.len(),
{
    if ls.len() == 0 {
        ls
    } else if is_name_echo(ls.last()) {
        firmware_lines(ls.drop_last())
    } else {
        firmware_lines(ls.drop_last()).push(ls.last())
    }
}

/// The file to copy for a module, given the answer to its location query:
/// none when no answer came or the module is builtin.
pub open spec fn copy_source(location: Seq<Seq<u8>>) -> Option<Seq<u8>> {
    if location.len() == 1 && location[0] != builtin_marker() {
        Some(location[0])
    } else {
        None
    }
}

pub open spec fn opt_bytes(p: Option<Vec<u8>>) -> Option<Seq<u8>> {
    match p {
        Some(v) => Some(v@),
        None => None,
    }
}

/// Reads a module's location from the oracle's answer, which must be one
/// line: the builtin marker, or the path of the module's binary.
pub fn mod_path(lines: &Vec<Vec<u8>>) -> (r: Result<ModPath, LocationError>)
    ensures
        match r {
            Ok(ModPath::Builtin) => lines.len() == 1 && lines@[0]@ == builtin_marker(),
            Ok(ModPath::Path(p)) => lines.len() == 1 && lines@[0]@ != builtin_marker() && p@
                == lines@[0]@,
            Err(LocationError::NotOneLine) => lines.len() != 1,
        },
{
    if lines.len() != 1 {
        return Err(LocationError::NotOneLine);
    }
    let marker: [u8; 9] = [40u8, 98u8, 117u8, 105u8, 108u8, 116u8, 105u8, 110u8, 41u8];
    assert(marker@ =~= builtin_marker());
    if bytes_equal(lines[0].as_slice(), marker.as_slice()) {
        Ok(ModPath::Builtin)
    } else {
        Ok(ModPath::Path(lines[0].clone()))
    }
}

/// Whether `line` starts with `name:`.
pub fn starts_with_name_echo(line: &[u8]) -> (r: bool)
    ensures
        r == is_name_echo(line@),
{
    if line.len() < 5 {
        return false;
    }
    let echo: [u8; 5] = [110u8, 97u8, 109u8, 101u8, 58u8];
    let mut i: usize = 0;
    while i < 5
        invariant
            i <= 5,
            line.len() >= 5,
            echo@ == name_echo(),
            forall|j: int| 0 <= j < i ==> line@[j] == echo@[j],
        decreases 5 - i,
    {
        if line[i] != echo[i] {
            assert(line@.subrange(0, 5)[i as int] != name_echo()[i as int]);
            return false;
        }
        i += 1;
    }
    assert(line@.subrange(0, 5) =~= name_echo());
    true
}

/// The firmware files a module declares, from the answer to its firmware
/// query: the lines that are not a `name:` echo.
pub fn firmware_names(lines: &Vec<Vec<u8>>) -> (r: Vec<Vec<u8>>)
    ensures
        byte_seqs(r@) == firmware_lines(byte_seqs(lines@)),
{
    let ghost all = byte_seqs(lines@);
    let mut names: Vec<Vec<u8>> = Vec::new();
    let mut i: usize = 0;
    while i < lines.len()
        invariant
            i <= lines.len(),
            all == byte_seqs(lines@),
            byte_seqs(names@) == firmware_lines(all.subrange(0, i as int)),
        decreases lines.len() - i,
    {
        proof {
            assert(all.subrange(0, i + 1).drop_last() =~= all.subrange(0, i as int));
        }
        if !starts_with_name_echo(lines[i].as_slice()) {
            names.push(lines[i].clone());
            assert(byte_seqs(names@) =~= firmware_lines(all.subrange(0, i as int)).push(
                all[i as int],
            ));
        }
        i += 1;
    }
    assert(all.subrange(0, lines.len() as int) =~= all);
    names
}

/// What is done for one module: the binary to copy, if any, and the
/// firmware files to copy.
#[derive(Debug)]
pub struct ModulePlan {
    pub copy_from: Option<Vec<u8>>,
    pub firmware: Vec<Vec<u8>>,
}

/// Plans the work for one module from the answers to its location and
/// firmware queries (`None`: the answer did not come). A builtin module, or
/// one whose location did not come, has nothing to copy, and its firmware is
/// still copied. A location answer of other than one line is an error.
pub fn plan_module(
    location: &Option<Vec<Vec<u8>>>,
    firmware: &Option<Vec<Vec<u8>>>,
) -> (r: Result<ModulePlan, LocationError>)
    ensures
        r is Err <==> (location is Some && location->Some_0.len() != 1),
        r matches Ok(plan) ==> opt_bytes(plan.copy_from) == copy_source(answer_lines(*location))
            && byte_seqs(plan.firmware@) == firmware_lines(answer_lines(*firmware)),
{
    let copy_from = match location {
        Some(lines) => match mod_path(lines) {
            Ok(ModPath::Path(p)) => Some(p),
            Ok(ModPath::Builtin) => None,
            Err(e) => {
                return Err(e);
            },
        },
        None => None,
    };
    let fw = match firmware {
        Some(lines) => firmware_names(lines),
        None => {
            let v: Vec<Vec<u8>> = Vec::new();
            assert(byte_seqs(v@) =~= firmware_lines(Seq::empty()));
            v
        },
    };
    proof {
        if let Some(lines) = location {
            assert(lines.len() == 1 ==> byte_seqs(lines@)[0] == lines@[0]@);
        }
    }
    Ok(ModulePlan { copy_from, firmware: fw })
}

/// How copying one firmware file went.
#[derive(Debug, Clone, Copy, PartialEq, Eq, Structural)]
pub enum CopyOutcome {
    Copied,
    /// The source file does not exist.
    NotFound,
    /// Any other failure.
    Failed,
}

/// What follows a firmware copy.
#[derive(Debug, Clone, Copy, PartialEq, Eq, Structural)]
pub enum FirmwareAction {
    /// Go on with the next file.
    Continue,
    /// Warn that the file is missing, then go on.
    WarnMissing,
    /// Stop the run.
    Abort,
}

/// A missing firmware file is only warned about; any other failure stops
/// the run.
pub fn firmware_copy_action(outcome: CopyOutcome) -> (r: FirmwareAction)
    ensures
        outcome == CopyOutcome::Copied ==> r == FirmwareAction::Continue,
        outcome == CopyOutcome::NotFound ==> r == FirmwareAction::WarnMissing,
        outcome == CopyOutcome::Failed ==> r == FirmwareAction::Abort,
{
    match outcome {
        CopyOutcome::Copied => FirmwareAction::Continue,
        CopyOutcome::NotFound => FirmwareAction::WarnMissing,
        CopyOutcome::Failed => FirmwareAction::Abort,
    }
}

} // verus!
