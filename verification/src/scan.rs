//! The directory scanner's rule: which entries of a directory are read.

use crate::text::{equal, last_index, last_position, slice, to_chars, views};
use vstd::prelude::*;

verus! {

/// The extension of a file name: what follows its last dot. A name without a
/// dot has none, nor has one whose only dot is its first character.
pub open spec fn extension_of(name: Seq<char>) -> Option<Seq<char>> {
    let dot = last_position(name, '.', name.len() as int);
    if dot <= 0 {
        None
    } else {
        Some(name.skip(dot + 1))
    }
}

/// The extensions of the files that are read.
pub open spec fn allowed_extension(ext: Seq<char>) -> bool {
    ext == "txt"@ || ext == "csv"@ || ext == "log"@
}

/// A file of this name is read.
pub open spec fn eligible_name(name: Seq<char>) -> bool {
    extension_of(name) matches Some(ext) && allowed_extension(ext)
}

/// Those of `names` that are read, in their order.
pub open spec fn eligible_names(names: Seq<Seq<char>>) -> Seq<Seq<char>>
    decreases names.len(),
{
    if names.len() == 0 {
        Seq::empty()
    } else if eligible_name(names.last()) {
        eligible_names(names.drop_last()).push(names.last())
    } else {
        eligible_names(names.drop_last())
    }
}

/// Whether the file called `name` is read: its extension is `txt`, `csv` or
/// `log`, in lower case. `name` is the file's name without its directory.
pub fn is_eligible(name: &str) -> (r: bool)
    ensures
        r == eligible_name(name@),
{
    let v = to_chars(name);
    let dot = match last_index(&v, '.', v.len()) {
        Some(dot) => dot,
        None => {
            return false;
        },
    };
    if dot == 0 {
        return false;
    }
    let ext = slice(&v, dot + 1, v.len());
    equal(&ext, &to_chars("txt")) || equal(&ext, &to_chars("csv")) || equal(&ext, &to_chars("log"))
}

/// Those of `names` that are read, in their order.
pub fn select_files(names: &Vec<String>) -> (out: Vec<String>)
    ensures
        views(out@) == eligible_names(views(names@)),
{
    let mut out: Vec<String> = Vec::new();
    let mut i: usize = 0;
    while i < names.len()
        invariant
            i <= names.len(),
            views(out@) == eligible_names(views(names@).take(i as int)),
        decreases names.len() - i,
    {
        assert(views(names@).take(i + 1).drop_last() == views(names@).take(i as int));
        assert(views(names@).take(i + 1).last() == names@[i as int]@);
        if is_eligible(names[i].as_str()) {
            let ghost held = views(out@);
            let name = names[i].clone();
            out.push(name);
            assert(views(out@) == held.push(names@[i as int]@));
        }
        i += 1;
    }
    assert(views(names@).take(names@.len() as int) == views(names@));
    out
}

} // verus!
