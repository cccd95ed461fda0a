use vstd::prelude::*;

pub mod models;

use crate::sql::models::Ip;

verus! {

/// The address that a lookup of the stored address row gives: the `c_ip` of the
/// first row found, or the empty string where no row was found.
pub fn get_ip(rows: &Vec<Ip>) -> (ip: String)
    ensures
        rows@.len() > 0 ==> ip@ == rows@[0].c_ip@,
        rows@.len() == 0 ==> ip@ == Seq::<char>::empty(),
{
    if rows.len() > 0 {
        rows[0].c_ip.clone()
    } else {
        String::new()
    }
}

} // verus!
