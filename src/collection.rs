//! Which entries of a collection directory tree are read.

use crate::text::{chars_of, has_prefix};
use vstd::prelude::*;

verus! {

/// `mejl`, the extension of the runner's own configuration files.
pub open spec fn config_extension() -> Seq<char> {
    seq!['m', 'e', 'j', 'l']
}

/// A directory whose name starts with `_` holds data, not collections.
pub fn ignored_directory(name: &str) -> (r: bool)
    ensures
        r == (name@.len() > 0 && name@[0] == '_'),
{
    let cs = chars_of(name);
    cs.len() > 0 && cs[0] == '_'
}

/// A file with the `mejl` extension configures the runner and is not a
/// collection.
pub fn ignored_file(extension: &str) -> (r: bool)
    ensures
        r == (extension@ == config_extension()),
{
    let cs = chars_of(extension);
    let config = chars_of("mejl");
    proof {
        reveal_strlit("mejl");
    }
    let r = cs.len() == config.len() && has_prefix(&cs, &config);
    proof {
        if cs@.len() == config@.len() {
            assert(cs@.subrange(0, config@.len() as int) =~= cs@);
        }
        assert(config@ =~= config_extension());
    }
    r
}

} // verus!
