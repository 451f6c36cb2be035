//! The virtual filesystem seam: a uniform tree of files and
//! directories, and the depth-first flattening that an extraction
//! pipeline walks, whatever backend filled the tree.

use vstd::prelude::*;

verus! {

use crate::pickle::{clone_string, clone_bytes};

/// One node of a virtual filesystem: a file with its content, or a
/// directory with its entries.
#[derive(Debug)]
pub enum VirtualEntry {
    File { path: String, data: Vec<u8> },
    Directory { path: String, entries: Vec<VirtualEntry> },
}

/// Mathematical model of a virtual filesystem node.
#[verifier::ext_equal]
pub enum EntryVal {
    File(Seq<char>, Seq<u8>),
    Directory(Seq<char>, Seq<EntryVal>),
}

impl VirtualEntry {
    /// The mathematical tree this node stands for.
    pub open spec fn deep_view(&self) -> EntryVal
        decreases self,
    {
        match self {
            VirtualEntry::File { path, data } => EntryVal::File(path@, data@),
            VirtualEntry::Directory { path, entries } => EntryVal::Directory(
                path@,
                entry_seq_view(entries@),
            ),
        }
    }

    /// This node's path.
    pub fn path(&self) -> (r: &String)
        ensures
            match self.deep_view() {
                EntryVal::File(p, _) => r@ == p,
                EntryVal::Directory(p, _) => r@ == p,
            },
    {
        match self {
            VirtualEntry::File { path, .. } => path,
            VirtualEntry::Directory { path, .. } => path,
        }
    }
}

/// Models of a vector of nodes, element by element.
pub open spec fn entry_seq_view(s: Seq<VirtualEntry>) -> Seq<EntryVal>
    decreases s,
{
    if s.len() == 0 {
        Seq::empty()
    } else {
        entry_seq_view(s.subrange(0, s.len() - 1)).push(s[s.len() - 1].deep_view())
    }
}

/// `entry_seq_view` is the element-by-element image of its argument.
pub proof fn lemma_entry_seq_view(s: Seq<VirtualEntry>)
    ensures
        entry_seq_view(s).len() == s.len(),
        forall|i: int| 0 <= i < s.len() ==> #[trigger] entry_seq_view(s)[i] == s[i].deep_view(),
    decreases s.len(),
{
    if s.len() > 0 {
        lemma_entry_seq_view(s.subrange(0, s.len() - 1));
        assert forall|i: int| 0 <= i < s.len() implies #[trigger] entry_seq_view(s)[i] == s[i]
            .deep_view() by {
            if i < s.len() - 1 {
                assert(s.subrange(0, s.len() - 1)[i] == s[i]);
            }
        }
    }
}

/// The depth-first file sequence of a tree: a file is itself; a
/// directory is its entries flattened left to right.
pub open spec fn flatten(e: EntryVal) -> Seq<(Seq<char>, Seq<u8>)>
    decreases e,
{
    match e {
        EntryVal::File(p, d) => seq![(p, d)],
        EntryVal::Directory(_, es) => flatten_seq(es),
    }
}

/// The depth-first file sequence of consecutive trees.
pub open spec fn flatten_seq(es: Seq<EntryVal>) -> Seq<(Seq<char>, Seq<u8>)>
    decreases es,
{
    if es.len() == 0 {
        Seq::empty()
    } else {
        flatten(es[0]) + flatten_seq(es.subrange(1, es.len() as int))
    }
}

/// Model of a vector of flattened files.
pub open spec fn files_view(s: Seq<(String, Vec<u8>)>) -> Seq<(Seq<char>, Seq<u8>)> {
    Seq::new(s.len(), |i: int| (s[i].0@, s[i].1@))
}

impl VirtualEntry {
    /// Flatten this tree depth first into its files, in order.
    pub fn read_files_deep(&self) -> (r: Vec<(String, Vec<u8>)>)
        ensures
            files_view(r@) == flatten(self.deep_view()),
        decreases self,
    {
        match self {
            VirtualEntry::File { path, data } => {
                let mut out: Vec<(String, Vec<u8>)> = Vec::new();
                out.push((clone_string(path), clone_bytes(data)));
                proof {
                    assert(files_view(out@) =~= seq![(path@, data@)]);
                }
                out
            },
            VirtualEntry::Directory { entries, .. } => {
                let out = read_files_deep_vec(entries);
                out
            },
        }
    }
}

/// Flatten consecutive trees depth first, in order.
fn read_files_deep_vec(entries: &Vec<VirtualEntry>) -> (r: Vec<(String, Vec<u8>)>)
    ensures
        files_view(r@) == flatten_seq(entry_seq_view(entries@)),
    decreases entries,
{
    let ghost full = entry_seq_view(entries@);
    proof {
        lemma_entry_seq_view(entries@);
    }
    let mut out: Vec<(String, Vec<u8>)> = Vec::new();
    proof {
        assert(files_view(out@) =~= Seq::<(Seq<char>, Seq<u8>)>::empty());
        assert(full.subrange(0, full.len() as int) =~= full);
    }
    let mut i: usize = 0;
    while i < entries.len()
        invariant
            full == entry_seq_view(entries@),
            entry_seq_view(entries@).len() == entries@.len(),
            forall|j: int|
                0 <= j < entries@.len() ==> #[trigger] entry_seq_view(entries@)[j] == entries@[
                j].deep_view(),
            i <= entries@.len(),
            files_view(out@) + flatten_seq(full.subrange(i as int, full.len() as int))
                == flatten_seq(full),
        decreases entries@.len() - i,
    {
        let ghost rem = full.subrange(i as int, full.len() as int);
        proof {
            assert(rem[0] == entries@[i as int].deep_view());
            assert(rem.subrange(1, rem.len() as int) =~= full.subrange(
                i + 1,
                full.len() as int,
            ));
        }
        let mut sub = entries[i].read_files_deep();
        let ghost pre = out@;
        let ghost subv = files_view(sub@);
        out.append(&mut sub);
        proof {
            assert(files_view(out@) =~= files_view(pre) + subv);
            assert((files_view(pre) + subv) + flatten_seq(full.subrange(i + 1, full.len() as int))
                =~= files_view(pre) + (subv + flatten_seq(full.subrange(i + 1, full.len() as int))));
        }
        i = i + 1;
    }
    proof {
        assert(full.subrange(i as int, full.len() as int) =~= Seq::<EntryVal>::empty());
        assert(files_view(out@) + Seq::<(Seq<char>, Seq<u8>)>::empty() =~= files_view(out@));
    }
    out
}

} // verus!
