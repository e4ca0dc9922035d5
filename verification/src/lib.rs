//! Verified core of a hosts-profile manager: a tree of independently
//! toggleable profiles, a recoverable trash bin, an append-only history of
//! every installed document, a composer that turns the active profiles into
//! one hosts document, and the decision logic of the privileged apply
//! pipeline, together with the JSON document codec the stores persist with.

pub mod apply;
pub mod codec;
pub mod compose;
pub mod docs;
pub mod history;
pub mod model;
pub mod trash;
pub mod tree;

use vstd::prelude::*;

verus! {

/// The canonical file name of the content blob attached to a profile id.
pub fn content_file_name(id: &str) -> (r: String)
    ensures
        r@ == "hosts_content_"@ + id@ + ".txt"@,
{
    let mut s = String::new();
    s.append("hosts_content_");
    s.append(id);
    s.append(".txt");
    proof {
        assert(s@ == "hosts_content_"@ + id@ + ".txt"@);
    }
    s
}

} // verus!
