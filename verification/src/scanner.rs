//! The directory of configuration files: which of its entries are searched.
use vstd::prelude::*;
use crate::text::{chars_of, occurs_at, stands_at};

verus! {

/// What the name of a configuration file starts with.
pub open spec fn config_prefix() -> Seq<char> {
    seq!['i', 'f', 'c', 'f', 'g', '-']
}

/// Whether `name` matches `ifcfg-*`: it starts with `ifcfg-`, in this case
/// of the letters, and anything or nothing follows.
pub open spec fn is_config_file_name(name: Seq<char>) -> bool {
    occurs_at(name, 0, config_prefix())
}

/// The names among `names` that match `ifcfg-*`, in the order they have
/// there.
pub open spec fn config_files_in(names: Seq<Seq<char>>) -> Seq<Seq<char>> {
    names.filter(|name: Seq<char>| is_config_file_name(name))
}

/// The names of the entries, each as its characters.
pub open spec fn names_of(entries: Seq<String>) -> Seq<Seq<char>> {
    entries.map_values(|entry: String| entry@)
}

/// Whether the entry `name` of the directory is a configuration file.
pub fn config_file_name(name: &str) -> (b: bool)
    ensures
        b == is_config_file_name(name@),
{
    let chars = chars_of(name);
    let prefix: [char; 6] = ['i', 'f', 'c', 'f', 'g', '-'];
    assert(prefix@ =~= config_prefix());
    stands_at(&chars, 0, prefix.as_slice())
}

/// Picks the configuration files among the entries of the directory.
///
/// Gives exactly the entries whose name matches `ifcfg-*`, in the order of
/// the listing, or `None` where no entry does.
pub fn list_config_files(entries: &Vec<String>) -> (res: Option<Vec<String>>)
    ensures
        match res {
            Some(files) => files@.len() > 0 && names_of(files@) == config_files_in(
                names_of(entries@),
            ),
            None => config_files_in(names_of(entries@)).len() == 0,
        },
{
    let mut files: Vec<String> = Vec::new();
    let mut i: usize = 0;
    proof {
        reveal(Seq::filter);
        assert(names_of(entries@.take(0)) =~= Seq::<Seq<char>>::empty());
        assert(names_of(files@) =~= Seq::<Seq<char>>::empty());
    }
    while i < entries.len()
        invariant
            i <= entries.len(),
            names_of(files@) == config_files_in(names_of(entries@.take(i as int))),
        decreases entries.len() - i,
    {
        let ghost seen = names_of(entries@.take(i as int));
        let ghost name = entries@[i as int]@;
        proof {
            let now = names_of(entries@.take(i + 1));
            assert(now =~= seen.push(name));
            assert(now.drop_last() =~= seen);
            reveal(Seq::filter);
        }
        if config_file_name(entries[i].as_str()) {
            let ghost before = names_of(files@);
            files.push(entries[i].clone());
            assert(names_of(files@) =~= before.push(name));
        }
        i += 1;
    }
    assert(entries@.take(i as int) =~= entries@);
    if files.len() > 0 {
        Some(files)
    } else {
        assert(names_of(files@).len() == 0);
        None
    }
}

/// The configuration files are exactly the entries of the listing whose name
/// matches `ifcfg-*`: none is left out and none is added, whatever the order
/// of the listing.
pub proof fn law_config_files_are_the_matching_entries(names: Seq<Seq<char>>, name: Seq<char>)
    ensures
        config_files_in(names).contains(name) <==> names.contains(name) && is_config_file_name(
            name,
        ),
{
    let matches = |name: Seq<char>| is_config_file_name(name);
    let files = names.filter(matches);
    if files.contains(name) {
        let i = choose|i: int| 0 <= i < files.len() && files[i] == name;
        names.lemma_filter_pred(matches, i);
        names.lemma_filter_contains_rev(matches, name);
    }
    if names.contains(name) && is_config_file_name(name) {
        let i = choose|i: int| 0 <= i < names.len() && names[i] == name;
        names.lemma_filter_contains(matches, i);
    }
}

} // verus!
