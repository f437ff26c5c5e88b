//! Project metadata.

use petname::Generator;
use rand::SeedableRng;
use vstd::prelude::*;

verus! {

/// Project metadata stored in .itack/metadata.toml.
#[derive(Debug, PartialEq, Eq)]
pub struct Metadata {
    /// Unique project identifier (petname-based).
    pub project_id: String,
}

/// The project identifier used where none could be generated.
pub open spec fn fallback_project_id() -> Seq<char> {
    "unnamed-project"@
}

/// A name of three words joined by hyphens, drawn by `petname::Petnames::large().generate`
/// from a `rand::rngs::StdRng` that is seeded from the system. The name is random; where
/// the generator gives one, it is not empty. Seeding stops the program where the system
/// has no randomness to give.
#[verifier::external_body]
fn random_name() -> (r: Option<String>)
    ensures
        r matches Some(name) ==> name@.len() > 0,
{
    let mut rng = rand::rngs::StdRng::from_entropy();
    petname::Petnames::large().generate(&mut rng, 3, "-")
}

impl Clone for Metadata {
    fn clone(&self) -> (r: Metadata)
        ensures
            r.project_id@ == self.project_id@,
    {
        Metadata { project_id: self.project_id.clone() }
    }
}

impl Metadata {
    /// The metadata for a generated name, or for the fallback name where there is none.
    pub fn named(generated: Option<String>) -> (m: Metadata)
        ensures
            m.project_id@ == (match generated {
                Some(name) => name@,
                None => fallback_project_id(),
            }),
    {
        match generated {
            Some(name) => Metadata { project_id: name },
            None => Metadata { project_id: "unnamed-project".to_owned() },
        }
    }

    /// Create new metadata with a random project ID.
    pub fn new() -> (m: Metadata)
        ensures
            m.project_id@.len() > 0,
    {
        proof {
            reveal_strlit("unnamed-project");
        }
        Metadata::named(random_name())
    }
}

impl Default for Metadata {
    fn default() -> (m: Metadata)
        ensures
            m.project_id@.len() > 0,
    {
        Metadata::new()
    }
}

} // verus!
