//! Listing stored profiles: filtering directory entries down to profile
//! files, ordering them by the saved ordering (or by name when none is
//! saved), and the labels and identifiers the tray menu shows for them.

use vstd::prelude::*;

verus! {

use vstd::multiset::Multiset;
use vstd::string::StringExecFns;

use crate::strings::{str_eq, string_from_chars, string_to_chars};

/// A stored profile, as the menu and the front end see it: its display
/// name and the file that holds it.
#[derive(Debug, PartialEq)]
pub struct ConfigFile {
    pub name: String,
    pub path: String,
}

/// Lexicographic order on character sequences, shorter prefixes first;
/// for these names it agrees with the byte order of their UTF-8 forms.
pub open spec fn lex_le(a: Seq<char>, b: Seq<char>) -> bool
    decreases a.len(),
{
    if a.len() == 0 {
        true
    } else if b.len() == 0 {
        false
    } else if a[0] < b[0] {
        true
    } else if a[0] > b[0] {
        false
    } else {
        lex_le(a.drop_first(), b.drop_first())
    }
}

/// Lexicographic order is total.
pub proof fn lemma_lex_le_total(a: Seq<char>, b: Seq<char>)
    ensures
        lex_le(a, b) || lex_le(b, a),
    decreases a.len(),
{
    if a.len() == 0 || b.len() == 0 {
    } else if a[0] == b[0] {
        lemma_lex_le_total(a.drop_first(), b.drop_first());
    }
}

/// Lexicographic order is transitive.
pub proof fn lemma_lex_le_trans(a: Seq<char>, b: Seq<char>, c: Seq<char>)
    requires
        lex_le(a, b),
        lex_le(b, c),
    ensures
        lex_le(a, c),
    decreases a.len(),
{
    if a.len() == 0 || b.len() == 0 || c.len() == 0 {
    } else if a[0] == b[0] && b[0] == c[0] {
        lemma_lex_le_trans(a.drop_first(), b.drop_first(), c.drop_first());
    }
}

/// Decides lexicographic order of two names.
#[verifier::loop_isolation(false)]
pub fn str_lex_le(a: &String, b: &String) -> (r: bool)
    ensures
        r == lex_le(a@, b@),
{
    let av = string_to_chars(a.as_str());
    let bv = string_to_chars(b.as_str());
    proof {
        assert(a@.skip(0) =~= a@);
        assert(b@.skip(0) =~= b@);
    }
    let mut i: usize = 0;
    while i < av.len() && i < bv.len()
        invariant
            0 <= i <= av.len(),
            0 <= i <= bv.len(),
            lex_le(a@, b@) == lex_le(a@.skip(i as int), b@.skip(i as int)),
        decreases av.len() - i,
    {
        if av[i] < bv[i] {
            return true;
        }
        if av[i] > bv[i] {
            return false;
        }
        proof {
            assert(a@.skip(i as int).drop_first() =~= a@.skip(i as int + 1));
            assert(b@.skip(i as int).drop_first() =~= b@.skip(i as int + 1));
            assert(a@.skip(i as int)[0] == b@.skip(i as int)[0]);
        }
        i = i + 1;
    }
    proof {
        if i >= av.len() {
            assert(a@.skip(i as int).len() == 0);
        } else {
            assert(b@.skip(i as int).len() == 0);
            assert(a@.skip(i as int).len() > 0);
        }
    }
    i >= av.len()
}

/// The views of a list of names.
pub open spec fn order_view(s: Seq<String>) -> Seq<Seq<char>> {
    Seq::new(s.len(), |i: int| if 0 <= i < s.len() { s[i]@ } else { Seq::empty() })
}

/// The position a name takes in the saved ordering: its first index, or
/// the ordering's length when the name is not saved, which sorts unknown
/// profiles after the known ones.
pub open spec fn spec_order_pos(order: Seq<Seq<char>>, name: Seq<char>) -> int
    decreases order.len(),
{
    if order.len() == 0 {
        0
    } else if order[0] == name {
        0
    } else {
        1 + spec_order_pos(order.drop_first(), name)
    }
}

/// A position in the ordering is never negative.
pub proof fn lemma_order_pos_nonneg(order: Seq<Seq<char>>, name: Seq<char>)
    ensures
        spec_order_pos(order, name) >= 0,
    decreases order.len(),
{
    if order.len() == 0 {
    } else if order[0] == name {
    } else {
        lemma_order_pos_nonneg(order.drop_first(), name);
    }
}

/// Computes a name's position in the saved ordering.
#[verifier::loop_isolation(false)]
pub fn order_pos(order: &Vec<String>, name: &String) -> (r: usize)
    ensures
        r == spec_order_pos(order_view(order@), name@),
{
    let ghost ov = order_view(order@);
    proof {
        assert(ov.skip(0) =~= ov);
        lemma_order_pos_nonneg(ov, name@);
    }
    let mut i: usize = 0;
    while i < order.len()
        invariant
            0 <= i <= order.len(),
            spec_order_pos(ov, name@) == i + spec_order_pos(ov.skip(i as int), name@),
            spec_order_pos(ov.skip(i as int), name@) >= 0,
        decreases order.len() - i,
    {
        proof {
            assert(ov.skip(i as int)[0] == ov[i as int]);
        }
        if str_eq(&order[i], name.as_str()) {
            proof {
                assert(spec_order_pos(ov.skip(i as int), name@) == 0);
            }
            return i;
        }
        proof {
            assert(ov.skip(i as int).drop_first() =~= ov.skip(i as int + 1));
            lemma_order_pos_nonneg(ov.skip(i as int + 1), name@);
        }
        i = i + 1;
    }
    proof {
        assert(ov.skip(order.len() as int).len() == 0);
    }
    order.len()
}

/// The order the listing shows: by the saved ordering when one exists,
/// else by name.
pub open spec fn cfg_le(by_name: bool, order: Seq<Seq<char>>, a: ConfigFile, b: ConfigFile) -> bool {
    if by_name {
        lex_le(a.name@, b.name@)
    } else {
        spec_order_pos(order, a.name@) <= spec_order_pos(order, b.name@)
    }
}

/// The listing order is total.
pub proof fn lemma_cfg_le_total(by_name: bool, order: Seq<Seq<char>>, a: ConfigFile, b: ConfigFile)
    ensures
        cfg_le(by_name, order, a, b) || cfg_le(by_name, order, b, a),
{
    if by_name {
        lemma_lex_le_total(a.name@, b.name@);
    }
}

/// The listing order is transitive.
pub proof fn lemma_cfg_le_trans(
    by_name: bool,
    order: Seq<Seq<char>>,
    a: ConfigFile,
    b: ConfigFile,
    c: ConfigFile,
)
    requires
        cfg_le(by_name, order, a, b),
        cfg_le(by_name, order, b, c),
    ensures
        cfg_le(by_name, order, a, c),
{
    if by_name {
        lemma_lex_le_trans(a.name@, b.name@, c.name@);
    }
}

/// Every pair of the sequence stands in listing order.
pub open spec fn cfg_sorted(s: Seq<ConfigFile>, by_name: bool, order: Seq<Seq<char>>) -> bool {
    forall|i: int, j: int| 0 <= i < j < s.len() ==> cfg_le(by_name, order, s[i], s[j])
}

/// Decides the listing order of two entries.
fn cfg_le_exec(by_name: bool, order: &Vec<String>, a: &ConfigFile, b: &ConfigFile) -> (r: bool)
    ensures
        r == cfg_le(by_name, order_view(order@), *a, *b),
{
    if by_name {
        str_lex_le(&a.name, &b.name)
    } else {
        let pa = order_pos(order, &a.name);
        let pb = order_pos(order, &b.name);
        pa <= pb
    }
}

/// Inserting an element anywhere adds exactly it to the multiset.
proof fn lemma_insert_to_multiset(s: Seq<ConfigFile>, p: int, c: ConfigFile)
    requires
        0 <= p <= s.len(),
    ensures
        s.insert(p, c).to_multiset() == s.to_multiset().insert(c),
{
    broadcast use vstd::seq_lib::group_to_multiset_ensures;

    let pre = s.take(p);
    let post = s.skip(p);
    assert(s =~= pre + post);
    assert(s.insert(p, c) =~= pre + (seq![c] + post));
    vstd::seq_lib::lemma_multiset_commutative(pre, post);
    vstd::seq_lib::lemma_multiset_commutative(pre, seq![c] + post);
    vstd::seq_lib::lemma_multiset_commutative(seq![c], post);
    assert(seq![c].to_multiset() =~= Multiset::<ConfigFile>::empty().insert(c));
    assert(s.insert(p, c).to_multiset() =~= s.to_multiset().insert(c));
}

/// Sorts the listing: stable insertion by the saved ordering when one is
/// present (unknown names go last), else by name.
#[verifier::loop_isolation(false)]
pub fn sort_configs(configs: Vec<ConfigFile>, order: &Vec<String>) -> (r: Vec<ConfigFile>)
    ensures
        r@.to_multiset() == configs@.to_multiset(),
        cfg_sorted(r@, order@.len() == 0, order_view(order@)),
{
    let by_name = order.len() == 0;
    let ghost ov = order_view(order@);
    let mut out: Vec<ConfigFile> = Vec::new();
    let mut i: usize = 0;
    proof {
        broadcast use vstd::seq_lib::group_to_multiset_ensures;

        assert(configs@.take(0) =~= Seq::<ConfigFile>::empty());
        assert(out@.to_multiset() =~= configs@.take(0).to_multiset());
    }
    while i < configs.len()
        invariant
            0 <= i <= configs.len(),
            out@.to_multiset() == configs@.take(i as int).to_multiset(),
            cfg_sorted(out@, by_name, ov),
        decreases configs.len() - i,
    {
        let c = crate::listing::clone_config(&configs[i]);
        let mut p: usize = 0;
        while p < out.len() && cfg_le_exec(by_name, order, &out[p], &c)
            invariant
                0 <= p <= out.len(),
                forall|m: int| 0 <= m < p ==> cfg_le(by_name, ov, #[trigger] out@[m], c),
            decreases out.len() - p,
        {
            p = p + 1;
        }
        proof {
            if p < out.len() {
                lemma_cfg_le_total(by_name, ov, out@[p as int], c);
            }
            assert forall|m: int| p <= m < out.len() implies cfg_le(by_name, ov, c, #[trigger] out@[m]) by {
                if p < m {
                    lemma_cfg_le_trans(by_name, ov, c, out@[p as int], out@[m]);
                }
            }
        }
        let ghost oldout = out@;
        out.insert(p, c);
        proof {
            lemma_insert_to_multiset(oldout, p as int, c);
            assert(configs@.take(i as int + 1) =~= configs@.take(i as int).push(configs@[i as int]));
            assert(c == configs@[i as int]);
            assert forall|a: int, b: int| 0 <= a < b < out@.len() implies cfg_le(
                by_name,
                ov,
                out@[a],
                out@[b],
            ) by {
                if a < p && b < p {
                    assert(out@[a] == oldout[a] && out@[b] == oldout[b]);
                } else if a < p && b == p {
                    assert(out@[a] == oldout[a] && out@[b] == c);
                } else if a < p && b > p {
                    assert(out@[a] == oldout[a] && out@[b] == oldout[b - 1]);
                } else if a == p {
                    assert(out@[a] == c && out@[b] == oldout[b - 1]);
                } else {
                    assert(out@[a] == oldout[a - 1] && out@[b] == oldout[b - 1]);
                }
            }
        }
        i = i + 1;
    }
    proof {
        assert(configs@.take(configs.len() as int) =~= configs@);
    }
    out
}

/// A copy of a listing entry.
pub fn clone_config(c: &ConfigFile) -> (r: ConfigFile)
    ensures
        r.name == c.name,
        r.path == c.path,
{
    ConfigFile { name: c.name.clone(), path: c.path.clone() }
}

/// Whether a directory entry's file name is a profile document's: it
/// must carry the profile suffix after a non-empty stem.
#[verifier::loop_isolation(false)]
pub fn is_json_name(name: &String) -> (r: bool)
    ensures
        r == (name@.len() > 5 && name@.skip(name@.len() - 5) == ".json"@),
{
    let chars = string_to_chars(name.as_str());
    proof {
        reveal_strlit(".json");
        assert(".json"@.len() == 5);
    }
    if chars.len() <= 5 {
        return false;
    }
    let n = chars.len() - 5;
    let suffix = string_to_chars(".json");
    let mut i: usize = 0;
    while i < 5
        invariant
            0 <= i <= 5,
            forall|m: int| 0 <= m < i ==> name@[n + m] == ".json"@[m],
        decreases 5 - i,
    {
        if chars[n + i] != suffix[i] {
            return false;
        }
        i = i + 1;
    }
    proof {
        assert(name@.skip(n as int) =~= ".json"@);
    }
    true
}

/// The profile name of a file name: the part before the suffix.
#[verifier::loop_isolation(false)]
pub fn file_stem(name: &String) -> (r: String)
    requires
        name@.len() >= 5,
        name@.skip(name@.len() - 5) == ".json"@,
    ensures
        r@ == name@.take(name@.len() - 5),
{
    let chars = string_to_chars(name.as_str());
    let n = chars.len() - 5;
    let mut stem: Vec<char> = Vec::new();
    let mut i: usize = 0;
    while i < n
        invariant
            0 <= i <= n,
            n + 5 == name@.len(),
            stem@ == name@.take(i as int),
        decreases n - i,
    {
        stem.push(chars[i]);
        proof {
            assert(stem@ =~= name@.take(i as int + 1));
        }
        i = i + 1;
    }
    string_from_chars(&stem)
}

/// The label the tray menu shows for a profile: a check mark before the
/// active one, matching indentation before the others.
pub fn tray_label(name: &String, is_current: bool) -> (r: String)
    ensures
        r@ == if is_current {
            "✓ "@ + name@
        } else {
            "  "@ + name@
        },
{
    if is_current {
        "✓ ".to_owned().concat(name.as_str())
    } else {
        "  ".to_owned().concat(name.as_str())
    }
}

/// The menu identifier that selects a profile: its path behind a fixed
/// prefix.
pub fn menu_id(path: &String) -> (r: String)
    ensures
        r@ == "config:"@ + path@,
{
    "config:".to_owned().concat(path.as_str())
}

/// The profile path a menu identifier selects, if it is such an
/// identifier.
#[verifier::loop_isolation(false)]
pub fn menu_id_path(id: &String) -> (r: Option<String>)
    ensures
        match r {
            Some(p) => id@.len() >= 7 && id@.take(7) == "config:"@ && p@ == id@.skip(7),
            None => !(id@.len() >= 7 && id@.take(7) == "config:"@),
        },
{
    let chars = string_to_chars(id.as_str());
    proof {
        reveal_strlit("config:");
        assert("config:"@.len() == 7);
    }
    if chars.len() < 7 {
        return None;
    }
    let prefix = string_to_chars("config:");
    let mut i: usize = 0;
    while i < 7
        invariant
            0 <= i <= 7,
            forall|m: int| 0 <= m < i ==> id@[m] == "config:"@[m],
        decreases 7 - i,
    {
        if chars[i] != prefix[i] {
            proof {
                assert(id@.take(7)[i as int] != "config:"@[i as int]);
            }
            return None;
        }
        i = i + 1;
    }
    proof {
        assert(id@.take(7) =~= "config:"@);
    }
    let mut rest: Vec<char> = Vec::new();
    let mut j: usize = 7;
    while j < chars.len()
        invariant
            7 <= j <= chars.len(),
            rest@ == id@.subrange(7, j as int),
        decreases chars.len() - j,
    {
        rest.push(chars[j]);
        proof {
            assert(rest@ =~= id@.subrange(7, j as int + 1));
        }
        j = j + 1;
    }
    proof {
        assert(id@.subrange(7, id@.len() as int) =~= id@.skip(7));
    }
    Some(string_from_chars(&rest))
}

} // verus!
