//! The questions put to the module metadata oracle, and how its answers are
//! read.
use vstd::prelude::*;
use crate::fields::{byte_seqs, output_lines, output_lines_of};

verus! {

/// The module tree that the oracle is asked about.
pub struct KernelData {
    /// Root of the module tree.
    pub path: Vec<u8>,
    /// Kernel version string.
    pub version: Vec<u8>,
}

impl KernelData {
    pub fn new(path: Vec<u8>, version: Vec<u8>) -> (r: KernelData)
        ensures
            r.path@ == path@,
            r.version@ == version@,
    {
        KernelData { path, version }
    }
}

/// A field of a module's metadata.
#[derive(Clone, Copy, Debug, PartialEq, Eq, Structural)]
pub enum QueryField {
    /// Canonical names that a token designates.
    Name,
    /// Location of the module's binary.
    Filename,
    /// Firmware files the module declares.
    Firmware,
    /// Hard dependencies, comma separated.
    Depends,
    /// Soft dependencies, whitespace separated.
    Softdep,
}

/// The field's name as the oracle spells it.
pub open spec fn field_spelling(field: QueryField) -> Seq<u8> {
    match field {
        QueryField::Name => seq![110u8, 97u8, 109u8, 101u8],
        QueryField::Filename => seq![102u8, 105u8, 108u8, 101u8, 110u8, 97u8, 109u8, 101u8],
        QueryField::Firmware => seq![102u8, 105u8, 114u8, 109u8, 119u8, 97u8, 114u8, 101u8],
        QueryField::Depends => seq![100u8, 101u8, 112u8, 101u8, 110u8, 100u8, 115u8],
        QueryField::Softdep => seq![115u8, 111u8, 102u8, 116u8, 100u8, 101u8, 112u8],
    }
}

/// The arguments of one query: `-b <tree> -k <version> -F <field> <module>`.
pub open spec fn query_arg_seq(
    path: Seq<u8>,
    version: Seq<u8>,
    field: QueryField,
    module: Seq<u8>,
) -> Seq<Seq<u8>> {
    seq![
        seq![45u8, 98u8],
        path,
        seq![45u8, 107u8],
        version,
        seq![45u8, 70u8],
        field_spelling(field),
        module,
    ]
}

pub fn field_name(field: QueryField) -> (r: Vec<u8>)
    ensures
        r@ == field_spelling(field),
{
    let r = match field {
        QueryField::Name => vec![110u8, 97u8, 109u8, 101u8],
        QueryField::Filename => vec![102u8, 105u8, 108u8, 101u8, 110u8, 97u8, 109u8, 101u8],
        QueryField::Firmware => vec![102u8, 105u8, 114u8, 109u8, 119u8, 97u8, 114u8, 101u8],
        QueryField::Depends => vec![100u8, 101u8, 112u8, 101u8, 110u8, 100u8, 115u8],
        QueryField::Softdep => vec![115u8, 111u8, 102u8, 116u8, 100u8, 101u8, 112u8],
    };
    assert(r@ =~= field_spelling(field));
    r
}

/// The arguments with which the oracle is asked for one field of one module.
pub fn query_args(kernel: &KernelData, field: QueryField, module: &Vec<u8>) -> (r: Vec<Vec<u8>>)
    ensures
        byte_seqs(r@) == query_arg_seq(kernel.path@, kernel.version@, field, module@),
{
    let mut r: Vec<Vec<u8>> = Vec::new();
    r.push(vec![45u8, 98u8]);
    r.push(kernel.path.clone());
    r.push(vec![45u8, 107u8]);
    r.push(kernel.version.clone());
    r.push(vec![45u8, 70u8]);
    r.push(field_name(field));
    r.push(module.clone());
    assert(byte_seqs(r@) =~= query_arg_seq(kernel.path@, kernel.version@, field, module@));
    r
}

/// What a query comes to.
#[derive(Debug)]
pub enum QueryOutcome {
    /// The oracle answered: the non-empty lines of its output, in order.
    Lines(Vec<Vec<u8>>),
    /// The oracle failed and missing modules are tolerated: no data, which
    /// is not the same as an empty answer.
    NoData,
    /// The oracle failed and missing modules are not tolerated: the run stops.
    Abort,
}

/// Reads the oracle's exit status and output: on success the non-empty lines
/// of its output, else no data or a stop, as `allow_missing` says.
pub fn query_outcome(success: bool, stdout: &[u8], allow_missing: bool) -> (r: QueryOutcome)
    ensures
        match r {
            QueryOutcome::Lines(ls) => success && byte_seqs(ls@) == output_lines(stdout@),
            QueryOutcome::NoData => !success && allow_missing,
            QueryOutcome::Abort => !success && !allow_missing,
        },
{
    if success {
        QueryOutcome::Lines(output_lines_of(stdout))
    } else if allow_missing {
        QueryOutcome::NoData
    } else {
        QueryOutcome::Abort
    }
}

} // verus!
