//! Personalized proteomes from consequence calls: each sample's coding
//! alterations are compiled into a flat program of slice copies (tasks over a
//! reference arena and an alternative arena) and run to edit the reference.

use vstd::prelude::*;

/// Character and string helpers.
pub mod text;
/// Amino-acid changes and consequence strings.
pub mod parser;
/// Mutation kinds and mutations.
pub mod mutation;
/// Lowering a mutation to a one-letter instruction.
pub mod instruction;
/// Slice-copy tasks.
pub mod task;
/// Programs of tasks and their execution.
pub mod gir;
/// Reference proteomes.
pub mod fasta;
/// Compiling the instructions of one transcript.
pub mod transcript;
/// Decoding bitmask words.
pub mod mask;
/// Bitmask texts of genotype fields.
pub mod bits;
/// VCF records and the mutations of a transcript.
pub mod vcf;
/// Assembling the programs of one haplotype.
pub mod haplotype;
/// Samples, tapes and personalized proteomes.
pub mod genome;
/// Reading VCF and FASTA text.
pub mod reading;
/// Summary counts.
pub mod summary;

verus! {

/// The execution engine that runs a compiled edit program.
#[derive(PartialEq, Eq, Structural, Clone, Copy, Debug)]
pub enum Engine {
    ST,
    MT,
    GPU,
}

/// The engine a name selects: `st`, `mt` or `gpu`, in lower or upper case.
pub open spec fn engine_of(s: Seq<char>) -> Option<Engine> {
    if s == "st"@ || s == "ST"@ {
        Some(Engine::ST)
    } else if s == "mt"@ || s == "MT"@ {
        Some(Engine::MT)
    } else if s == "gpu"@ || s == "GPU"@ {
        Some(Engine::GPU)
    } else {
        None
    }
}

impl Engine {
    /// Reads an engine name (see `engine_of`).
    pub fn from_str(eninge_name: &str) -> (r: Result<Engine, String>)
        ensures
            r is Ok <==> engine_of(eninge_name@) is Some,
            r is Ok ==> r->Ok_0 == engine_of(eninge_name@)->0,
    {
        if text::same_text(eninge_name, "st") || text::same_text(eninge_name, "ST") {
            Ok(Engine::ST)
        } else if text::same_text(eninge_name, "mt") || text::same_text(eninge_name, "MT") {
            Ok(Engine::MT)
        } else if text::same_text(eninge_name, "gpu") || text::same_text(eninge_name, "GPU") {
            Ok(Engine::GPU)
        } else {
            Err("not a supported engine".to_owned())
        }
    }
}

} // verus!
