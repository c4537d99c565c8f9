//! Environment variables for the child processes: a map from names to values
//! with the replace-on-insert behaviour of a hash map.

use vstd::prelude::*;
use vstd::string::StringExecFns;
use crate::paths::{
    concat, win_join, join_path, joinable_base, lemma_join_keeps_joinable, lemma_simple_names,
};

verus! {

/// Name–value pairs as sequences of characters.
pub type PairsView = Seq<(Seq<char>, Seq<char>)>;

pub open spec fn pairs_view(v: Seq<(String, String)>) -> PairsView {
    v.map_values(|p: (String, String)| (p.0@, p.1@))
}

/// No name occurs twice.
pub open spec fn keys_distinct(s: PairsView) -> bool {
    forall|i: int, j: int| 0 <= i < j < s.len() ==> #[trigger] s[i].0 != #[trigger] s[j].0
}

/// The map that inserting the pairs in order, into `m`, produces.
pub open spec fn insert_all(m: Map<Seq<char>, Seq<char>>, s: PairsView) -> Map<Seq<char>, Seq<char>>
    decreases s.len(),
{
    if s.len() == 0 {
        m
    } else {
        insert_all(m, s.drop_last()).insert(s.last().0, s.last().1)
    }
}

/// The map of the pairs, a later pair winning over an earlier one of the same name.
pub open spec fn map_of(s: PairsView) -> Map<Seq<char>, Seq<char>> {
    insert_all(Map::empty(), s)
}

pub proof fn lemma_map_of_dom(s: PairsView, k: Seq<char>)
    ensures
        map_of(s).dom().contains(k) <==> exists|i: int| 0 <= i < s.len() && #[trigger] s[i].0 == k,
    decreases s.len(),
{
    if s.len() > 0 {
        lemma_map_of_dom(s.drop_last(), k);
        if map_of(s.drop_last()).dom().contains(k) {
            let i = choose|i: int| 0 <= i < s.drop_last().len() && #[trigger] s.drop_last()[i].0 == k;
            assert(s[i].0 == k);
        }
        if exists|i: int| 0 <= i < s.len() && #[trigger] s[i].0 == k {
            let i = choose|i: int| 0 <= i < s.len() && #[trigger] s[i].0 == k;
            if i < s.len() - 1 {
                assert(s.drop_last()[i].0 == k);
            }
        }
    }
}

pub proof fn lemma_map_of_value(s: PairsView, i: int)
    requires
        keys_distinct(s),
        0 <= i < s.len(),
    ensures
        map_of(s).dom().contains(s[i].0),
        map_of(s)[s[i].0] == s[i].1,
    decreases s.len(),
{
    if i < s.len() - 1 {
        assert(s.drop_last()[i] == s[i]);
        assert(keys_distinct(s.drop_last())) by {
            assert forall|a: int, b: int| 0 <= a < b < s.drop_last().len() implies #[trigger] s.drop_last()[a].0
                != #[trigger] s.drop_last()[b].0 by {
                assert(s.drop_last()[a] == s[a]);
                assert(s.drop_last()[b] == s[b]);
            }
        }
        lemma_map_of_value(s.drop_last(), i);
        assert(s[i].0 != s.last().0);
    }
}

/// Replacing the value of a name that occurs once updates the map at that name.
proof fn lemma_map_of_update(s: PairsView, i: int, v: Seq<char>)
    requires
        keys_distinct(s),
        0 <= i < s.len(),
    ensures
        map_of(s.update(i, (s[i].0, v))) =~= map_of(s).insert(s[i].0, v),
    decreases s.len(),
{
    let t = s.update(i, (s[i].0, v));
    if i == s.len() - 1 {
        assert(t.drop_last() =~= s.drop_last());
    } else {
        assert(t.drop_last() =~= s.drop_last().update(i, (s[i].0, v)));
        assert(keys_distinct(s.drop_last())) by {
            assert forall|a: int, b: int| 0 <= a < b < s.drop_last().len() implies #[trigger] s.drop_last()[a].0
                != #[trigger] s.drop_last()[b].0 by {
                assert(s.drop_last()[a] == s[a]);
                assert(s.drop_last()[b] == s[b]);
            }
        }
        assert(s.drop_last()[i] == s[i]);
        lemma_map_of_update(s.drop_last(), i, v);
        assert(s[i].0 != s.last().0);
        assert(t.last() == s.last());
    }
}

/// Environment variables, each name once.
pub struct EnvMap {
    entries: Vec<(String, String)>,
}

impl EnvMap {
    #[verifier::type_invariant]
    closed spec fn wf(self) -> bool {
        keys_distinct(pairs_view(self.entries@))
    }

    /// The pairs in insertion order of their names.
    pub closed spec fn pairs(self) -> PairsView {
        pairs_view(self.entries@)
    }
}

impl View for EnvMap {
    type V = Map<Seq<char>, Seq<char>>;

    closed spec fn view(&self) -> Map<Seq<char>, Seq<char>> {
        map_of(pairs_view(self.entries@))
    }
}

impl EnvMap {
    /// An empty environment.
    pub fn new() -> (r: EnvMap)
        ensures
            r@ == Map::<Seq<char>, Seq<char>>::empty(),
            r.pairs().len() == 0,
    {
        let r = EnvMap { entries: Vec::new() };
        proof {
            assert(pairs_view(r.entries@) =~= Seq::<(Seq<char>, Seq<char>)>::empty());
        }
        r
    }

    /// Sets `key` to `value`, replacing an earlier value (`HashMap::insert`).
    pub fn insert(&mut self, key: String, value: String)
        ensures
            final(self)@ == old(self)@.insert(key@, value@),
    {
        proof {
            use_type_invariant(&*self);
        }
        let mut entries: Vec<(String, String)> = Vec::new();
        std::mem::swap(&mut entries, &mut self.entries);
        let ghost ks = key@;
        let ghost vs = value@;
        let ghost before = pairs_view(entries@);
        let mut i: usize = 0;
        while i < entries.len()
            invariant
                i <= entries@.len(),
                before == pairs_view(entries@),
                map_of(before) == old(self)@,
                keys_distinct(before),
                ks == key@,
                vs == value@,
                forall|m: int| 0 <= m < i ==> before[m].0 != ks,
            decreases entries@.len() - i,
        {
            proof {
                assert(before[i as int] == (entries@[i as int].0@, entries@[i as int].1@));
            }
            if entries[i].0 == key {
                proof {
                    assert(before[i as int].0 == ks);
                    lemma_map_of_update(before, i as int, vs);
                    assert(pairs_view(entries@.update(i as int, (key, value))) =~= before.update(
                        i as int,
                        (before[i as int].0, vs),
                    ));
                    assert forall|a: int, b: int|
                        0 <= a < b < before.len() implies #[trigger] before.update(
                        i as int,
                        (before[i as int].0, vs),
                    )[a].0 != #[trigger] before.update(i as int, (before[i as int].0, vs))[b].0 by {
                        assert(before[a].0 != before[b].0);
                    }
                }
                let ghost upd = before.update(i as int, (before[i as int].0, vs));
                let ghost old_entries = entries@;
                entries.set(i, (key, value));
                proof {
                    assert(pairs_view(entries@) =~= upd) by {
                        assert(entries@ == old_entries.update(i as int, (key, value)));
                    }
                    assert(map_of(upd) == map_of(before).insert(ks, vs));
                }
                self.entries = entries;
                return;
            }
            proof {
                assert(before[i as int] == (entries@[i as int].0@, entries@[i as int].1@));
            }
            i += 1;
        }
        entries.push((key, value));
        proof {
            assert(pairs_view(entries@) =~= before.push((ks, vs)));
            assert(pairs_view(entries@).drop_last() =~= before);
            assert forall|a: int, b: int|
                0 <= a < b < pairs_view(entries@).len() implies #[trigger] pairs_view(
                entries@,
            )[a].0 != #[trigger] pairs_view(entries@)[b].0 by {
                if b < before.len() {
                    assert(before[a].0 != before[b].0);
                }
            }
        }
        self.entries = entries;
    }

    /// The value of `key`, if it is set.
    pub fn get(&self, key: &str) -> (r: Option<String>)
        ensures
            r is Some <==> self@.dom().contains(key@),
            r matches Some(v) ==> v@ == self@[key@],
    {
        proof {
            use_type_invariant(self);
            lemma_map_of_dom(pairs_view(self.entries@), key@);
        }
        let ghost pv = pairs_view(self.entries@);
        let wanted = String::from_str(key);
        let mut i: usize = 0;
        while i < self.entries.len()
            invariant
                i <= self.entries@.len(),
                pv == pairs_view(self.entries@),
                keys_distinct(pv),
                wanted@ == key@,
                forall|m: int| 0 <= m < i ==> pv[m].0 != key@,
            decreases self.entries@.len() - i,
        {
            proof {
                assert(pv[i as int] == (self.entries@[i as int].0@, self.entries@[i as int].1@));
            }
            if self.entries[i].0 == wanted {
                proof {
                    lemma_map_of_value(pv, i as int);
                }
                return Some(self.entries[i].1.clone());
            }
            i += 1;
        }
        None
    }

    /// The pairs, one per name.
    pub fn to_pairs(&self) -> (r: Vec<(String, String)>)
        ensures
            pairs_view(r@) == self.pairs(),
            keys_distinct(pairs_view(r@)),
            map_of(pairs_view(r@)) == self@,
    {
        proof {
            use_type_invariant(self);
        }
        let mut r: Vec<(String, String)> = Vec::new();
        let mut i: usize = 0;
        while i < self.entries.len()
            invariant
                i <= self.entries@.len(),
                pairs_view(r@) == pairs_view(self.entries@).take(i as int),
            decreases self.entries@.len() - i,
        {
            let k = self.entries[i].0.clone();
            let v = self.entries[i].1.clone();
            let ghost old_r = pairs_view(r@);
            r.push((k, v));
            proof {
                assert(pairs_view(r@) =~= old_r.push((k@, v@)));
                assert(pairs_view(self.entries@).take(i + 1) =~= pairs_view(self.entries@).take(
                    i as int,
                ).push(pairs_view(self.entries@)[i as int]));
            }
            i += 1;
        }
        proof {
            assert(pairs_view(self.entries@).take(self.entries@.len() as int) =~= pairs_view(
                self.entries@,
            ));
        }
        r
    }

    /// Inserts the pairs in order, a later one replacing an earlier one.
    pub fn insert_pairs(&mut self, extra: Vec<(String, String)>)
        ensures
            final(self)@ == insert_all(old(self)@, pairs_view(extra@)),
    {
        let ghost m0 = self@;
        let mut i: usize = 0;
        proof {
            assert(pairs_view(extra@).take(0) =~= Seq::<(Seq<char>, Seq<char>)>::empty());
        }
        for pair in it: extra
            invariant
                it.seq() == extra@,
                self@ == insert_all(m0, pairs_view(extra@).take(it.index() as int)),
        {
            let ghost idx = it.index();
            let (k, v) = pair;
            self.insert(k, v);
            proof {
                let pv = pairs_view(extra@);
                assert(pv.take(idx + 1).drop_last() =~= pv.take(idx as int));
                assert(pv.take(idx + 1).last() == pv[idx as int]);
            }
        }
        proof {
            assert(pairs_view(extra@).take(extra@.len() as int) =~= pairs_view(extra@));
        }
    }
}


/// Inserting pairs one by one gives the map overridden by the map of the pairs.
pub proof fn insert_all_overrides(m: Map<Seq<char>, Seq<char>>, s: PairsView)
    ensures
        insert_all(m, s) == m.union_prefer_right(map_of(s)),
    decreases s.len(),
{
    if s.len() == 0 {
        assert(m.union_prefer_right(Map::empty()) =~= m);
    } else {
        insert_all_overrides(m, s.drop_last());
        insert_all_overrides(Map::empty(), s.drop_last());
        assert(Map::<Seq<char>, Seq<char>>::empty().union_prefer_right(map_of(s.drop_last())) =~= map_of(
            s.drop_last(),
        ));
        assert(m.union_prefer_right(map_of(s.drop_last())).insert(s.last().0, s.last().1)
            =~= m.union_prefer_right(map_of(s.drop_last()).insert(s.last().0, s.last().1)));
    }
}

/// With each name once, the order of the pairs does not matter: the same pairs
/// in any order give the same map (as when the pairs come from a hash map).
pub proof fn map_of_order_irrelevant(s1: PairsView, s2: PairsView)
    requires
        keys_distinct(s1),
        keys_distinct(s2),
        forall|p: (Seq<char>, Seq<char>)| s1.contains(p) <==> s2.contains(p),
    ensures
        map_of(s1) == map_of(s2),
{
    let m1 = map_of(s1);
    let m2 = map_of(s2);
    assert forall|k: Seq<char>| #[trigger] m1.dom().contains(k) == m2.dom().contains(k) by {
        lemma_map_of_dom(s1, k);
        lemma_map_of_dom(s2, k);
        if m1.dom().contains(k) {
            let i = choose|i: int| 0 <= i < s1.len() && #[trigger] s1[i].0 == k;
            assert(s1.contains(s1[i]));
            let j = choose|j: int| 0 <= j < s2.len() && s2[j] == s1[i];
            assert(s2[j].0 == k);
        }
        if m2.dom().contains(k) {
            let j = choose|j: int| 0 <= j < s2.len() && #[trigger] s2[j].0 == k;
            assert(s2.contains(s2[j]));
            let i = choose|i: int| 0 <= i < s1.len() && s1[i] == s2[j];
            assert(s1[i].0 == k);
        }
    }
    assert forall|k: Seq<char>| #[trigger] m1.dom().contains(k) implies m1[k] == m2[k] by {
        lemma_map_of_dom(s1, k);
        let i = choose|i: int| 0 <= i < s1.len() && #[trigger] s1[i].0 == k;
        assert(s1.contains(s1[i]));
        let j = choose|j: int| 0 <= j < s2.len() && s2[j] == s1[i];
        lemma_map_of_value(s1, i);
        lemma_map_of_value(s2, j);
    }
    assert(m1.dom() =~= m2.dom());
    assert(map_of(s1) =~= map_of(s2));
}

/// The environment `gw_sh` needs: `IDE\bin` and `Programmer\bin` put in front
/// of the inherited `PATH` (kept whole when it is set and not empty), and the Tcl
/// library directories under `IDE\lib`.
pub open spec fn spec_gw_sh_env(
    ide_base: Seq<char>,
    programmer_base: Seq<char>,
    inherited_path: Option<Seq<char>>,
) -> Map<Seq<char>, Seq<char>> {
    let ide_bin = win_join(ide_base, "bin"@);
    let programmer_bin = win_join(programmer_base, "bin"@);
    let ide_lib = win_join(ide_base, "lib"@);
    let extra = ide_bin + ";"@ + programmer_bin;
    let path = match inherited_path {
        Some(v) => if v.len() > 0 {
            extra + ";"@ + v
        } else {
            extra
        },
        None => extra,
    };
    Map::empty().insert("PATH"@, path).insert("TCL_LIBRARY"@, win_join(ide_lib, "tcl8.6"@)).insert(
        "TCLLIBPATH"@,
        ide_lib + ";"@ + win_join(ide_lib, "itcl4.0.3"@) + ";"@ + win_join(ide_lib, "tcl8.6"@),
    )
}

/// The environment for `gw_sh`, given the `PATH` that the server itself runs with,
/// for bases whose joins [`win_join`] describes.
pub fn gw_sh_env(ide_base: &str, programmer_base: &str, inherited_path: Option<&str>) -> (r: EnvMap)
    ensures
        r@.dom() == set!["PATH"@, "TCL_LIBRARY"@, "TCLLIBPATH"@],
        joinable_base(ide_base@) && joinable_base(programmer_base@) ==> r@ == spec_gw_sh_env(
            ide_base@,
            programmer_base@,
            match inherited_path {
                Some(v) => Some(v@),
                None => None,
            },
        ),
{
    let mut env = EnvMap::new();
    let ide_bin = join_path(ide_base, "bin");
    let programmer_bin = join_path(programmer_base, "bin");
    let ide_lib = join_path(ide_base, "lib");
    let extra0 = concat(ide_bin.as_str(), ";");
    let extra = concat(extra0.as_str(), programmer_bin.as_str());
    let path_value = match inherited_path {
        Some(v) => {
            if v.is_empty() {
                extra
            } else {
                let with_sep = concat(extra.as_str(), ";");
                concat(with_sep.as_str(), v)
            }
        },
        None => extra,
    };
    env.insert(String::from_str("PATH"), path_value);
    let tcl = join_path(ide_lib.as_str(), "tcl8.6");
    env.insert(String::from_str("TCL_LIBRARY"), tcl);
    let itcl = join_path(ide_lib.as_str(), "itcl4.0.3");
    let tcl2 = join_path(ide_lib.as_str(), "tcl8.6");
    let p1 = concat(ide_lib.as_str(), ";");
    let p2 = concat(p1.as_str(), itcl.as_str());
    let p3 = concat(p2.as_str(), ";");
    let p4 = concat(p3.as_str(), tcl2.as_str());
    env.insert(String::from_str("TCLLIBPATH"), p4);
    proof {
        if joinable_base(ide_base@) && joinable_base(programmer_base@) {
            lemma_simple_names();
            lemma_join_keeps_joinable(ide_base@, "bin"@);
            lemma_join_keeps_joinable(programmer_base@, "bin"@);
            lemma_join_keeps_joinable(ide_base@, "lib"@);
            lemma_join_keeps_joinable(win_join(ide_base@, "lib"@), "tcl8.6"@);
            lemma_join_keeps_joinable(win_join(ide_base@, "lib"@), "itcl4.0.3"@);
        }
    }
    env
}

/// The environment of a `gw_sh` run: [`gw_sh_env`] with the request's own
/// variables inserted over it.
pub fn run_tcl_env(
    ide_base: &str,
    programmer_base: &str,
    inherited_path: Option<&str>,
    extra: Vec<(String, String)>,
) -> (r: EnvMap)
    ensures
        joinable_base(ide_base@) && joinable_base(programmer_base@) ==> r@ == insert_all(
            spec_gw_sh_env(
                ide_base@,
                programmer_base@,
                match inherited_path {
                    Some(v) => Some(v@),
                    None => None,
                },
            ),
            pairs_view(extra@),
        ),
{
    let mut env = gw_sh_env(ide_base, programmer_base, inherited_path);
    env.insert_pairs(extra);
    env
}

} // verus!
