//! Values carried in portal option dictionaries.
use crate::fspath::{file_name, path_file_name};
use crate::text::{from_utf8_lossy, utf8_lossy};
use vstd::prelude::*;

verus! {

/// One choice of a file-chooser request: an id, a label, the options as
/// `(id, label)` pairs, and the selected option's id.
#[derive(Clone, Debug)]
pub struct Choice {
    pub id: String,
    pub label: String,
    pub options: Vec<(String, String)>,
    pub selected: String,
}

/// `bytes` without its trailing NUL bytes.
pub open spec fn strip_trailing_nuls(bytes: Seq<u8>) -> Seq<u8>
    decreases bytes.len(),
{
    if bytes.len() > 0 && bytes.last() == 0 {
        strip_trailing_nuls(bytes.drop_last())
    } else {
        bytes
    }
}

/// The file name that a byte-array path names, as text; `None` when it names
/// none.
pub open spec fn ay_file_name(bytes: Seq<u8>) -> Option<Seq<char>> {
    file_name(utf8_lossy(strip_trailing_nuls(bytes)))
}

/// The file names of a list of byte-array paths, leaving out those that have
/// none.
pub open spec fn ay_file_names(arrays: Seq<Seq<u8>>) -> Seq<Seq<char>>
    decreases arrays.len(),
{
    if arrays.len() == 0 {
        Seq::empty()
    } else {
        let rest = ay_file_names(arrays.drop_last());
        match ay_file_name(arrays.last()) {
            Some(n) => if n.len() > 0 {
                rest.push(n)
            } else {
                rest
            },
            None => rest,
        }
    }
}

/// A path received as a D-Bus byte array (`ay`): the bytes with the
/// trailing NULs removed.
pub fn path_from_ay(bytes: Vec<u8>) -> (out: Vec<u8>)
    ensures
        out@ == strip_trailing_nuls(bytes@),
{
    let ghost given = bytes@;
    let mut bytes = bytes;
    while bytes.len() > 0 && bytes[bytes.len() - 1] == 0
        invariant
            strip_trailing_nuls(bytes@) == strip_trailing_nuls(given),
        decreases bytes.len(),
    {
        let ghost before = bytes@;
        bytes.pop();
        proof {
            assert(bytes@ =~= before.drop_last());
        }
    }
    bytes
}

/// The choices of a request, from the `(id, label, options, selected)`
/// tuples of its `choices` option.
pub fn choices_from_tuples(raw: Vec<(String, String, Vec<(String, String)>, String)>) -> (out: Vec<
    Choice,
>)
    ensures
        out.len() == raw.len(),
        forall|i: int|
            0 <= i < raw.len() ==> {
                &&& (#[trigger] out@[i]).id == raw@[i].0
                &&& out@[i].label == raw@[i].1
                &&& out@[i].options == raw@[i].2
                &&& out@[i].selected == raw@[i].3
            },
{
    let mut out: Vec<Choice> = Vec::new();
    let mut rest = raw;
    let ghost all = rest@;
    let mut taken: Vec<Choice> = Vec::new();
    while rest.len() > 0
        invariant
            rest@ == all.take(rest.len() as int),
            taken.len() + rest.len() == all.len(),
            forall|i: int|
                0 <= i < taken.len() ==> {
                    &&& (#[trigger] taken@[i]).id == all[all.len() - 1 - i].0
                    &&& taken@[i].label == all[all.len() - 1 - i].1
                    &&& taken@[i].options == all[all.len() - 1 - i].2
                    &&& taken@[i].selected == all[all.len() - 1 - i].3
                },
        decreases rest.len(),
    {
        let ghost before = rest@;
        let (id, label, options, selected) = rest.pop().unwrap();
        proof {
            assert(rest@ =~= all.take(rest.len() as int));
        }
        taken.push(Choice { id, label, options, selected });
    }
    while taken.len() > 0
        invariant
            out.len() + taken.len() == all.len(),
            forall|i: int|
                0 <= i < taken.len() ==> {
                    &&& (#[trigger] taken@[i]).id == all[all.len() - 1 - i].0
                    &&& taken@[i].label == all[all.len() - 1 - i].1
                    &&& taken@[i].options == all[all.len() - 1 - i].2
                    &&& taken@[i].selected == all[all.len() - 1 - i].3
                },
            forall|i: int|
                0 <= i < out.len() ==> {
                    &&& (#[trigger] out@[i]).id == all[i].0
                    &&& out@[i].label == all[i].1
                    &&& out@[i].options == all[i].2
                    &&& out@[i].selected == all[i].3
                },
        decreases taken.len(),
    {
        let c = taken.pop().unwrap();
        out.push(c);
    }
    out
}

/// The file names of the paths in a `files` option, leaving out paths that
/// name no file.
pub fn file_names_from_ay(arrays: Vec<Vec<u8>>) -> (out: Vec<String>)
    ensures
        out@.map_values(|s: String| s@) == ay_file_names(arrays@.map_values(|b: Vec<u8>| b@)),
{
    let ghost all = arrays@.map_values(|b: Vec<u8>| b@);
    let mut out: Vec<String> = Vec::new();
    let mut i: usize = 0;
    while i < arrays.len()
        invariant
            i <= arrays.len(),
            all == arrays@.map_values(|b: Vec<u8>| b@),
            out@.map_values(|s: String| s@) == ay_file_names(all.take(i as int)),
        decreases arrays.len() - i,
    {
        let ghost before = out@.map_values(|s: String| s@);
        proof {
            assert(all.take(i + 1).drop_last() =~= all.take(i as int));
            assert(all.take(i + 1).last() == arrays@[i as int]@);
        }
        let bytes = path_from_ay(arrays[i].clone());
        let text = from_utf8_lossy(bytes.as_slice());
        match path_file_name(text.as_str()) {
            Some(n) => {
                if !n.as_str().is_empty() {
                    out.push(n);
                    proof {
                        assert(out@.map_values(|s: String| s@) =~= before.push(n@));
                    }
                }
            },
            None => {},
        }
        i += 1;
    }
    proof {
        assert(all.take(arrays.len() as int) =~= all);
    }
    out
}

} // verus!
