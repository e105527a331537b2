//! The engine that archives are opened with.

use crate::engine_bundle::resolve::{Place, Resolve, ResolveFailure, ResolveStep};
use vstd::prelude::*;

verus! {

/// The engine, by the path of its program.
#[derive(Debug)]
pub struct SevenZip {
    pub executable: String,
}

impl SevenZip {
    /// The engine that the search has found, at the path that belongs to its place;
    /// why there is none, where the search has ended without one.
    pub fn from_bundle(found: &Resolve, path: &str) -> (r: Result<SevenZip, Option<ResolveFailure>>)
        ensures
            match found.step {
                ResolveStep::Use(_) => r matches Ok(z) && z.executable@ == path@,
                ResolveStep::Fail(f) => r == Err::<SevenZip, Option<ResolveFailure>>(Some(f)),
                _ => r == Err::<SevenZip, Option<ResolveFailure>>(None),
            },
    {
        match found.step {
            ResolveStep::Use(_) => Ok(SevenZip { executable: path.to_owned() }),
            ResolveStep::Fail(f) => Err(Some(f)),
            _ => Err(None),
        }
    }

    /// The place of the engine that the search has found.
    pub fn place(found: &Resolve) -> (r: Option<Place>)
        ensures
            match found.step {
                ResolveStep::Use(p) => r == Some(p),
                _ => r is None,
            },
    {
        match found.step {
            ResolveStep::Use(p) => Some(p),
            _ => None,
        }
    }

    /// The arguments for listing an archive, before its path.
    pub fn list_args(&self) -> (r: Vec<&'static str>)
        ensures
            r@.len() == 6,
            r@[0]@ == "l"@,
            r@[1]@ == "-slt"@,
            r@[2]@ == "-ba"@,
            r@[3]@ == "-sccUTF-8"@,
            r@[4]@ == "-p-"@,
            r@[5]@ == "--"@,
    {
        let mut v: Vec<&'static str> = Vec::new();
        v.push("l");
        v.push("-slt");
        v.push("-ba");
        v.push("-sccUTF-8");
        v.push("-p-");
        v.push("--");
        v
    }
}

} // verus!
