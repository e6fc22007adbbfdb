//! Look-up of the key information that belongs to a PRX tag.
use vstd::prelude::*;
use crate::kirk_lib::kirk_engine::KeyVault;
use crate::tag_info::{TAG_INFO, TAG_INFO2};

verus! {

/// `j` is the first entry of `table` with tag `tag`.
pub open spec fn is_first_tag(table: Seq<TAG_INFO>, tag: u32, j: int) -> bool {
    &&& 0 <= j < table.len()
    &&& table[j].tag == tag
    &&& forall|k: int| 0 <= k < j ==> table[k].tag != tag
}

/// The first entry of `table` with tag `tag`, if any.
pub open spec fn tag_info_of(table: Seq<TAG_INFO>, tag: u32) -> Option<TAG_INFO> {
    if exists|j: int| is_first_tag(table, tag, j) {
        Some(table[choose|j: int| is_first_tag(table, tag, j)])
    } else {
        None
    }
}

/// `j` is the first entry of `table` with tag `tag`.
pub open spec fn is_first_tag_2(table: Seq<TAG_INFO2>, tag: u32, j: int) -> bool {
    &&& 0 <= j < table.len()
    &&& table[j].tag == tag
    &&& forall|k: int| 0 <= k < j ==> table[k].tag != tag
}

/// The first entry of `table` with tag `tag`, if any.
pub open spec fn tag_info_2_of(table: Seq<TAG_INFO2>, tag: u32) -> Option<TAG_INFO2> {
    if exists|j: int| is_first_tag_2(table, tag, j) {
        Some(table[choose|j: int| is_first_tag_2(table, tag, j)])
    } else {
        None
    }
}

/// The key information of `tag_find` in the first tag table.
pub fn get_tag_info(vault: &KeyVault, tag_find: u32) -> (r: Option<&TAG_INFO>)
    ensures
        match r {
            Some(info) => tag_info_of(vault.tag_info@, tag_find) == Some(*info),
            None => tag_info_of(vault.tag_info@, tag_find) is None,
        },
{
    let table = &vault.tag_info;
    let mut i: usize = 0;
    while i < table.len()
        invariant
            i <= table@.len(),
            table@ == vault.tag_info@,
            forall|k: int| 0 <= k < i ==> table@[k].tag != tag_find,
        decreases table@.len() - i,
    {
        if table[i].tag == tag_find {
            proof {
                assert(is_first_tag(table@, tag_find, i as int));
                let c = choose|j: int| is_first_tag(table@, tag_find, j);
                assert(c == i as int) by {
                    if c < i {
                        assert(table@[c].tag != tag_find);
                    }
                    if c > i {
                        assert(table@[i as int].tag != tag_find);
                    }
                }
            }
            return Some(&table[i]);
        }
        i = i + 1;
    }
    proof {
        assert(!exists|j: int| is_first_tag(table@, tag_find, j));
    }
    None
}

/// The key information of `tag_find` in the second tag table.
pub fn get_tag_info_2(vault: &KeyVault, tag_find: u32) -> (r: Option<&TAG_INFO2>)
    ensures
        match r {
            Some(info) => tag_info_2_of(vault.tag_info_2@, tag_find) == Some(*info),
            None => tag_info_2_of(vault.tag_info_2@, tag_find) is None,
        },
{
    let table = &vault.tag_info_2;
    let mut i: usize = 0;
    while i < table.len()
        invariant
            i <= table@.len(),
            table@ == vault.tag_info_2@,
            forall|k: int| 0 <= k < i ==> table@[k].tag != tag_find,
        decreases table@.len() - i,
    {
        if table[i].tag == tag_find {
            proof {
                assert(is_first_tag_2(table@, tag_find, i as int));
                let c = choose|j: int| is_first_tag_2(table@, tag_find, j);
                assert(c == i as int) by {
                    if c < i {
                        assert(table@[c].tag != tag_find);
                    }
                    if c > i {
                        assert(table@[i as int].tag != tag_find);
                    }
                }
            }
            return Some(&table[i]);
        }
        i = i + 1;
    }
    proof {
        assert(!exists|j: int| is_first_tag_2(table@, tag_find, j));
    }
    None
}

} // verus!
