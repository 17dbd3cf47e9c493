use crate::text::has_prefix;
use crate::text::str_eq;
use crate::text::strip_prefix_str;
use vstd::prelude::*;
use vstd::string::StringExecFns;

verus! {

/// The store keys' namespace: the stable table name and a colon.
pub open spec fn table_prefix() -> Seq<char> {
    "aosc-packages-stable:"@
}

/// The store key under which one package name's record is written and read.
pub fn table_key(name: &str) -> (r: String)
    ensures
        r@ == table_prefix() + name@,
{
    let mut s = String::from_str("aosc-packages-stable:");
    s.append(name);
    s
}

/// The package name back out of a store key, or nothing where the key does
/// not lie under the table's namespace.
pub fn strip_key_prefix(key: &str) -> (r: Option<String>)
    ensures
        r is Some <==> has_prefix(key@, table_prefix()),
        r is Some ==> r->0@ == key@.skip(table_prefix().len() as int),
{
    strip_prefix_str(key, "aosc-packages-stable:")
}

/// The glob pattern that matches every key beginning with `stars`.
pub fn star_pattern(stars: &str) -> (r: String)
    ensures
        r@ == stars@ + "*"@,
{
    let mut s = String::from_str(stars);
    s.append("*");
    s
}

/// Whether a refresh cycle walks the tree: only on a forced first run or
/// when the revision identifier changed across the fetch.  With an
/// unchanged identifier and no force, the cycle performs no walk and so no
/// storage writes.
pub fn decide_refresh(old_rev: &str, new_rev: &str, first_time: bool) -> (r: bool)
    ensures
        r == (first_time || old_rev@ != new_rev@),
{
    if first_time {
        true
    } else {
        !str_eq(old_rev, new_rev)
    }
}

/// Building a store key and stripping the namespace back off returns the
/// package name unchanged: every published record is retrievable by name.
pub proof fn lemma_key_round_trip(name: Seq<char>)
    ensures
        has_prefix(table_prefix() + name, table_prefix()),
        (table_prefix() + name).skip(table_prefix().len() as int) == name,
{
    let k = table_prefix() + name;
    assert(forall|j: int| 0 <= j < table_prefix().len() ==> k[j] == table_prefix()[j]);
    assert(k.skip(table_prefix().len() as int) =~= name);
}

} // verus!
