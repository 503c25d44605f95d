//! Defaults offered by the template and VM menus.

use vstd::prelude::*;
use vstd::string::*;
use crate::pvesh::string_views;
use crate::text::{decimal, decimal_string, same_text};

verus! {

/// The first index in `s` at or after `i` holding `x`, if any.
pub open spec fn index_of(s: Seq<Seq<char>>, x: Seq<char>, i: int) -> Option<int>
    decreases s.len() - i,
{
    if i < 0 || i >= s.len() {
        None
    } else if s[i] == x {
        Some(i)
    } else {
        index_of(s, x, i + 1)
    }
}

/// The menu position of the configured storage pool among the pools listed,
/// or the first pool when it is not listed.
pub fn default_storage_index(storages: &Vec<String>, preferred: &str) -> (r: usize)
    ensures
        r == match index_of(string_views(storages@), preferred@, 0) {
            Some(k) => k,
            None => 0,
        },
{
    let ghost views = string_views(storages@);
    let mut i: usize = 0;
    while i < storages.len()
        invariant
            i <= storages.len(),
            views == string_views(storages@),
            index_of(views, preferred@, 0) == index_of(views, preferred@, i as int),
        decreases storages.len() - i,
    {
        assert(views[i as int] == storages@[i as int]@);
        if same_text(storages[i].as_str(), preferred) {
            return i;
        }
        i = i + 1;
    }
    0
}

/// `"<vmid> — <name>"`, a line of the template menu.
pub fn template_choice_label(vmid: u32, name: &str) -> (r: String)
    ensures
        r@ == decimal(vmid as nat) + " \u{2014} "@ + name@,
{
    let mut s = decimal_string(vmid);
    s.append(" \u{2014} ");
    s.append(name);
    s
}

/// The VMID offered for a clone when the cluster's next id cannot be read:
/// the one after the template's, and at least 100 (the lowest valid VMID).
pub fn fallback_clone_vmid(template_id: u32) -> (r: u32)
    requires
        template_id < u32::MAX,
    ensures
        r == if template_id + 1 < 100 {
            100
        } else {
            template_id + 1
        },
{
    let next = template_id + 1;
    if next < 100 {
        100
    } else {
        next
    }
}

} // verus!
