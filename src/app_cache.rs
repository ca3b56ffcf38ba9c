//! The daemon's small persisted key/value store: text keys to text values,
//! one value per key.
use crate::text::chars_of;
use vstd::prelude::*;

verus! {

/// Key of the relay topic id.
pub const TOPIC_ID: &'static str = "topic_id";

/// Key of the location id.
pub const LOCATION_ID: &'static str = "location_id";

/// The mapping that parallel lists of keys and values stand for.
pub open spec fn to_map(keys: Seq<Seq<char>>, vals: Seq<Seq<char>>) -> Map<Seq<char>, Seq<char>>
    decreases keys.len(),
{
    if keys.len() == 0 || vals.len() == 0 {
        Map::empty()
    } else {
        to_map(keys.drop_last(), vals.drop_last()).insert(keys.last(), vals.last())
    }
}

/// No key occurs twice.
pub open spec fn distinct(keys: Seq<Seq<char>>) -> bool {
    forall|i: int, j: int| 0 <= i < j < keys.len() ==> keys[i] != keys[j]
}

proof fn lemma_to_map_keys(keys: Seq<Seq<char>>, vals: Seq<Seq<char>>, k: Seq<char>)
    requires
        keys.len() == vals.len(),
        distinct(keys),
    ensures
        to_map(keys, vals).contains_key(k) <==> keys.contains(k),
        forall|i: int| 0 <= i < keys.len() && keys[i] == k ==> to_map(keys, vals)[k] == vals[i],
    decreases keys.len(),
{
    if keys.len() > 0 {
        let kd = keys.drop_last();
        let vd = vals.drop_last();
        lemma_to_map_keys(kd, vd, k);
        if keys.contains(k) && k != keys.last() {
            let i = choose|i: int| 0 <= i < keys.len() && keys[i] == k;
            assert(kd[i] == k);
        }
        if kd.contains(k) {
            let i = choose|i: int| 0 <= i < kd.len() && kd[i] == k;
            assert(keys[i] == k);
        }
        assert forall|i: int| 0 <= i < keys.len() && keys[i] == k implies to_map(keys, vals)[k]
            == vals[i] by {
            if i < keys.len() - 1 {
                assert(kd[i] == k);
                assert(keys[i] != keys[keys.len() - 1]);
            }
        }
    }
}

proof fn lemma_to_map_update(keys: Seq<Seq<char>>, vals: Seq<Seq<char>>, i: int, v: Seq<char>)
    requires
        keys.len() == vals.len(),
        distinct(keys),
        0 <= i < keys.len(),
    ensures
        to_map(keys, vals.update(i, v)) == to_map(keys, vals).insert(keys[i], v),
    decreases keys.len(),
{
    let kd = keys.drop_last();
    let vd = vals.drop_last();
    let n = keys.len() - 1;
    if i == n {
        assert(vals.update(i, v).drop_last() =~= vd);
        assert(to_map(keys, vals.update(i, v)) =~= to_map(keys, vals).insert(keys[i], v));
    } else {
        assert(vals.update(i, v).drop_last() =~= vd.update(i, v));
        lemma_to_map_update(kd, vd, i, v);
        assert(keys[i] != keys[n]);
        assert(to_map(keys, vals.update(i, v)) =~= to_map(keys, vals).insert(keys[i], v));
    }
}

/// Splits a stored line `key=value` at its first `=`; `None` when the line
/// has no `=`.
pub fn split_entry(line: &str) -> (r: Option<(String, String)>)
    ensures
        match r {
            Some((k, v)) => exists|i: int|
                0 <= i < line@.len() && line@[i] == '=' && (forall|j: int|
                    0 <= j < i ==> line@[j] != '=') && k@ == line@.take(i) && v@ == line@.skip(
                    i + 1,
                ),
            None => forall|i: int| 0 <= i < line@.len() ==> line@[i] != '=',
        },
{
    let chars = chars_of(line);
    let mut i: usize = 0;
    while i < chars.len()
        invariant
            chars@ == line@,
            i <= chars.len(),
            forall|j: int| 0 <= j < i ==> line@[j] != '=',
        decreases chars.len() - i,
    {
        if chars[i] == '=' {
            let k = String::from_str(line.substring_char(0, i));
            let v = String::from_str(line.substring_char(i + 1, chars.len()));
            assert(k@ =~= line@.take(i as int));
            assert(v@ =~= line@.skip(i + 1));
            return Some((k, v));
        }
        i = i + 1;
    }
    None
}

/// The key/value store.
pub struct Cache {
    keys: Vec<String>,
    vals: Vec<String>,
}

impl View for Cache {
    type V = Map<Seq<char>, Seq<char>>;

    closed spec fn view(&self) -> Map<Seq<char>, Seq<char>> {
        to_map(self.keys@.map_values(|s: String| s@), self.vals@.map_values(|s: String| s@))
    }
}

fn find_key(keys: &Vec<String>, key: &String) -> (r: Option<usize>)
    ensures
        match r {
            Some(i) => i < keys.len() && keys@[i as int]@ == key@,
            None => !keys@.map_values(|s: String| s@).contains(key@),
        },
{
    let mut i: usize = 0;
    while i < keys.len()
        invariant
            i <= keys.len(),
            forall|j: int| 0 <= j < i ==> keys@[j]@ != key@,
        decreases keys.len() - i,
    {
        if keys[i] == *key {
            return Some(i);
        }
        i = i + 1;
    }
    None
}

impl Cache {
    /// One value per key.
    #[verifier::type_invariant]
    spec fn wf(&self) -> bool {
        &&& self.keys.len() == self.vals.len()
        &&& distinct(self.keys@.map_values(|s: String| s@))
    }

    /// An empty store.
    pub fn new() -> (r: Self)
        ensures
            r@ == Map::<Seq<char>, Seq<char>>::empty(),
    {
        let keys: Vec<String> = Vec::new();
        let vals: Vec<String> = Vec::new();
        assert(keys@.map_values(|s: String| s@).len() == 0);
        Cache { keys, vals }
    }

    /// Stores `value` under `key`, replacing what was there.
    pub fn set(&mut self, key: &str, value: &str)
        ensures
            final(self)@ == old(self)@.insert(key@, value@),
    {
        proof {
            use_type_invariant(&*self);
        }
        let mut taken = Cache::new();
        std::mem::swap(self, &mut taken);
        proof {
            use_type_invariant(&taken);
        }
        let Cache { mut keys, mut vals } = taken;
        let k = String::from_str(key);
        let v = String::from_str(value);
        let ghost ks = keys@.map_values(|s: String| s@);
        let ghost vs = vals@.map_values(|s: String| s@);
        match find_key(&keys, &k) {
            Some(i) => {
                vals.set(i, v);
                proof {
                    assert(vals@.map_values(|s: String| s@) =~= vs.update(i as int, value@));
                    lemma_to_map_update(ks, vs, i as int, value@);
                }
            },
            None => {
                keys.push(k);
                vals.push(v);
                proof {
                    let nks = keys@.map_values(|s: String| s@);
                    let nvs = vals@.map_values(|s: String| s@);
                    assert(nks.drop_last() =~= ks);
                    assert(nvs.drop_last() =~= vs);
                    assert forall|a: int, b: int| 0 <= a < b < nks.len() implies nks[a]
                        != nks[b] by {
                        assert(ks[a] == nks[a]);
                        if b == nks.len() - 1 {
                            assert(nks[b] == key@);
                            if ks[a] == key@ {
                                assert(ks.contains(key@));
                            }
                        } else {
                            assert(ks[b] == nks[b]);
                        }
                    }
                }
            },
        }
        *self = Cache { keys, vals };
    }

    /// The value stored under `key`, if any.
    pub fn get(&self, key: &str) -> (r: Option<String>)
        ensures
            match r {
                Some(v) => self@.contains_key(key@) && self@[key@] == v@,
                None => !self@.contains_key(key@),
            },
    {
        proof {
            use_type_invariant(self);
        }
        let k = String::from_str(key);
        let ghost ks = self.keys@.map_values(|s: String| s@);
        let ghost vs = self.vals@.map_values(|s: String| s@);
        proof {
            lemma_to_map_keys(ks, vs, key@);
        }
        match find_key(&self.keys, &k) {
            Some(i) => {
                assert(ks[i as int] == key@);
                Some(self.vals[i].clone())
            },
            None => None,
        }
    }

    /// Every stored pair, each key once.
    pub fn pairs(&self) -> (r: Vec<(String, String)>)
        ensures
            to_map(
                r@.map_values(|p: (String, String)| p.0@),
                r@.map_values(|p: (String, String)| p.1@),
            ) == self@,
            distinct(r@.map_values(|p: (String, String)| p.0@)),
    {
        proof {
            use_type_invariant(self);
        }
        let mut out: Vec<(String, String)> = Vec::new();
        let mut i: usize = 0;
        let ghost ks = self.keys@.map_values(|s: String| s@);
        let ghost vs = self.vals@.map_values(|s: String| s@);
        while i < self.keys.len()
            invariant
                self.keys.len() == self.vals.len(),
                ks == self.keys@.map_values(|s: String| s@),
                vs == self.vals@.map_values(|s: String| s@),
                distinct(ks),
                i <= self.keys.len(),
                out@.map_values(|p: (String, String)| p.0@) == ks.take(i as int),
                out@.map_values(|p: (String, String)| p.1@) == vs.take(i as int),
            decreases self.keys.len() - i,
        {
            let k = self.keys[i].clone();
            let v = self.vals[i].clone();
            let ghost before = out@;
            out.push((k, v));
            assert(out@ == before.push((k, v)));
            assert(k@ == ks[i as int] && v@ == vs[i as int]);
            assert(out@.map_values(|p: (String, String)| p.0@) =~= before.map_values(
                |p: (String, String)| p.0@,
            ).push(k@));
            assert(out@.map_values(|p: (String, String)| p.1@) =~= before.map_values(
                |p: (String, String)| p.1@,
            ).push(v@));
            assert(ks.take(i + 1) =~= ks.take(i as int).push(k@));
            assert(vs.take(i + 1) =~= vs.take(i as int).push(v@));
            i = i + 1;
            assert(out@.map_values(|p: (String, String)| p.0@) =~= ks.take(i as int));
            assert(out@.map_values(|p: (String, String)| p.1@) =~= vs.take(i as int));
        }
        assert(ks.take(i as int) =~= ks);
        assert(vs.take(i as int) =~= vs);
        out
    }
}

} // verus!
