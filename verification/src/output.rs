//! Which files a time step is written to, and what they are called.

use vstd::prelude::*;
use vstd::string::*;
use crate::cli::Cli;
use crate::text::{decimal, push_decimal};

verus! {

/// A format that the sources of a time step can be written in.
#[derive(Debug, Clone, Copy, PartialEq, Eq, Structural)]
pub enum OutputKind {
    /// Structured entries.
    Json,
    /// Source-distribution cards.
    Mcnp,
    /// A text table.
    Table,
}

impl OutputKind {
    /// The extension of a file in this format.
    pub open spec fn ending(self) -> Seq<char> {
        match self {
            OutputKind::Json => "json"@,
            OutputKind::Mcnp => "i"@,
            OutputKind::Table => "txt"@,
        }
    }

    /// The name of the file that is written where the one asked for cannot
    /// be made.
    pub open spec fn fallback(self, index: nat) -> Seq<char> {
        match self {
            OutputKind::Json => "step_"@ + decimal(index) + ".json"@,
            OutputKind::Mcnp => "step_"@ + decimal(index) + ".i"@,
            OutputKind::Table => "table.txt"@,
        }
    }

    /// The extension of a file in this format.
    pub fn extension(&self) -> (out: &'static str)
        ensures
            out@ == self.ending(),
    {
        match self {
            OutputKind::Json => "json",
            OutputKind::Mcnp => "i",
            OutputKind::Table => "txt",
        }
    }

    /// The name of the file that is written where the one asked for cannot
    /// be made.
    pub fn fallback_name(&self, index: usize) -> (out: String)
        ensures
            out@ == self.fallback(index as nat),
    {
        let mut out = String::new();
        match self {
            OutputKind::Json => {
                out.append("step_");
                push_decimal(&mut out, index);
                out.append(".json");
                assert(out@ =~= "step_"@ + decimal(index as nat) + ".json"@);
            },
            OutputKind::Mcnp => {
                out.append("step_");
                push_decimal(&mut out, index);
                out.append(".i");
                assert(out@ =~= "step_"@ + decimal(index as nat) + ".i"@);
            },
            OutputKind::Table => {
                out.append("table.txt");
                assert(out@ =~= "table.txt"@);
            },
        }
        out
    }
}

/// The formats that are asked for, in the order they are written.
pub open spec fn requested(cli: Cli) -> Seq<OutputKind> {
    (if cli.json {
        seq![OutputKind::Json]
    } else {
        Seq::empty()
    }) + (if cli.mcnp {
        seq![OutputKind::Mcnp]
    } else {
        Seq::empty()
    }) + (if cli.text {
        seq![OutputKind::Table]
    } else {
        Seq::empty()
    })
}

/// The formats that are asked for, in the order they are written.
pub fn outputs(cli: &Cli) -> (out: Vec<OutputKind>)
    ensures
        out@ == requested(*cli),
{
    let mut out: Vec<OutputKind> = Vec::new();
    if cli.json {
        out.push(OutputKind::Json);
    }
    if cli.mcnp {
        out.push(OutputKind::Mcnp);
    }
    if cli.text {
        out.push(OutputKind::Table);
    }
    assert(out@ =~= requested(*cli));
    out
}

/// The name of the files of a time step, without extension: the stem of
/// the prefix asked for, or `step` where it has none, then the index of the
/// step.
pub open spec fn step_name(stem: Option<Seq<char>>, index: nat) -> Seq<char> {
    match stem {
        Some(name) => name + "_"@ + decimal(index),
        None => "step_"@ + decimal(index),
    }
}

/// The name of the files of a time step, without extension.
pub fn output_name(stem: Option<&str>, index: usize) -> (out: String)
    ensures
        out@ == step_name(
            match stem {
                Some(name) => Some(name@),
                None => None,
            },
            index as nat,
        ),
{
    let mut out = String::new();
    match stem {
        Some(name) => {
            out.append(name);
            out.append("_");
            push_decimal(&mut out, index);
            assert(out@ =~= name@ + "_"@ + decimal(index as nat));
        },
        None => {
            out.append("step_");
            push_decimal(&mut out, index);
            assert(out@ =~= "step_"@ + decimal(index as nat));
        },
    }
    out
}

} // verus!
