//! The mapping from hex content hashes to backend blob identifiers, and the
//! JSON document it is persisted as: one flat object whose keys are hashes
//! and whose values are identifiers.
//!
//! The mapping itself is a sequence of entries with distinct keys, viewed as
//! a map. Reading and writing the document file is the caller's business;
//! this module turns documents into mappings and back.

use crate::bytes::bytes_eq;
use crate::json::{
    encode_object, json_clean, object_parse, obj_view, parse_object, spec_encode_object,
    JsonVal, SpecJson,
};
use crate::pointer::pairs_view;
use vstd::prelude::*;

verus! {

/// The map a sequence of entries denotes; a later entry wins.
pub open spec fn entries_map(s: Seq<(Seq<u8>, Seq<u8>)>) -> Map<Seq<u8>, Seq<u8>>
    decreases s.len(),
{
    if s.len() == 0 {
        Map::empty()
    } else {
        entries_map(s.drop_last()).insert(s.last().0, s.last().1)
    }
}

/// A key is present exactly when some entry holds it.
pub proof fn lemma_entries_map_contains(s: Seq<(Seq<u8>, Seq<u8>)>, k: Seq<u8>)
    ensures
        entries_map(s).contains_key(k) <==> exists|i: int| 0 <= i < s.len() && (#[trigger] s[i]).0
            == k,
    decreases s.len(),
{
    if s.len() > 0 {
        lemma_entries_map_contains(s.drop_last(), k);
        if entries_map(s).contains_key(k) {
            if s.last().0 == k {
                assert(s[s.len() - 1].0 == k);
            } else {
                let i = choose|i: int|
                    0 <= i < s.drop_last().len() && (#[trigger] s.drop_last()[i]).0 == k;
                assert(s[i].0 == k);
            }
        }
        if exists|i: int| 0 <= i < s.len() && (#[trigger] s[i]).0 == k {
            let i = choose|i: int| 0 <= i < s.len() && (#[trigger] s[i]).0 == k;
            if i < s.len() - 1 {
                assert(s.drop_last()[i].0 == k);
            }
        }
    }
}

/// With distinct keys, the entry holding a key gives its value in the map.
pub proof fn lemma_entries_map_at(s: Seq<(Seq<u8>, Seq<u8>)>, i: int)
    requires
        0 <= i < s.len(),
        forall|a: int, b: int| 0 <= a < b < s.len() ==> (#[trigger] s[a]).0 != (#[trigger] s[b]).0,
    ensures
        entries_map(s).contains_key(s[i].0),
        entries_map(s)[s[i].0] == s[i].1,
    decreases s.len(),
{
    if i == s.len() - 1 {
        assert(s.last() == s[i]);
    } else {
        assert(s[s.len() - 1].0 != s[i].0);
        assert(forall|a: int, b: int|
            0 <= a < b < s.drop_last().len() ==> (#[trigger] s.drop_last()[a]).0 != (
            #[trigger] s.drop_last()[b]).0);
        lemma_entries_map_at(s.drop_last(), i);
        assert(s.drop_last()[i] == s[i]);
    }
}

/// Replacing the value of the entry that holds a key inserts into the map.
proof fn lemma_entries_map_update(s: Seq<(Seq<u8>, Seq<u8>)>, i: int, e: (Seq<u8>, Seq<u8>))
    requires
        0 <= i < s.len(),
        s[i].0 == e.0,
        forall|a: int, b: int| 0 <= a < b < s.len() ==> (#[trigger] s[a]).0 != (#[trigger] s[b]).0,
    ensures
        entries_map(s.update(i, e)) =~= entries_map(s).insert(e.0, e.1),
    decreases s.len(),
{
    let t = s.update(i, e);
    if i == s.len() - 1 {
        assert(t.drop_last() =~= s.drop_last());
        assert(t.last() == e);
    } else {
        assert(t.last() == s.last());
        assert(t.drop_last() =~= s.drop_last().update(i, e));
        assert(forall|a: int, b: int|
            0 <= a < b < s.drop_last().len() ==> (#[trigger] s.drop_last()[a]).0 != (
            #[trigger] s.drop_last()[b]).0);
        assert(s.drop_last()[i] == s[i]);
        lemma_entries_map_update(s.drop_last(), i, e);
        assert(s.last().0 != s[i].0);
    }
}

/// The persistent hash-to-blob-identifier mapping.
pub struct BlobMapping {
    entries: Vec<(Vec<u8>, Vec<u8>)>,
}

impl View for BlobMapping {
    type V = Map<Seq<u8>, Seq<u8>>;

    open spec fn view(&self) -> Map<Seq<u8>, Seq<u8>> {
        entries_map(self.entry_seq())
    }
}

impl BlobMapping {
    /// The entries in storage order.
    pub closed spec fn entry_seq(&self) -> Seq<(Seq<u8>, Seq<u8>)> {
        pairs_view(self.entries@)
    }

    /// Entries hold distinct keys.
    pub open spec fn wf(&self) -> bool {
        forall|a: int, b: int|
            0 <= a < b < self.entry_seq().len() ==> (#[trigger] self.entry_seq()[a]).0 != (
            #[trigger] self.entry_seq()[b]).0
    }

    /// Every key and value is free of control bytes, so the mapping can be
    /// written as a document and read back.
    pub open spec fn clean(&self) -> bool {
        forall|i: int|
            0 <= i < self.entry_seq().len() ==> json_clean((#[trigger] self.entry_seq()[i]).0)
                && json_clean(self.entry_seq()[i].1)
    }

    /// An empty mapping.
    pub fn new() -> (r: BlobMapping)
        ensures
            r@ == Map::<Seq<u8>, Seq<u8>>::empty(),
            r.wf(),
            r.clean(),
    {
        let r = BlobMapping { entries: Vec::new() };
        proof {
            assert(pairs_view(r.entries@).len() == 0);
        }
        r
    }

    /// Look a content hash up. Returns its blob identifier exactly when the
    /// mapping holds the hash.
    pub fn get(&self, key: &Vec<u8>) -> (r: Option<Vec<u8>>)
        requires
            self.wf(),
        ensures
            match r {
                Some(v) => self@.contains_key(key@) && self@[key@] == v@,
                None => !self@.contains_key(key@),
            },
    {
        let ghost pv = self.entry_seq();
        proof {
            assert forall|a: int, b: int| 0 <= a < b < pv.len() implies (#[trigger] pv[a]).0 != (
            #[trigger] pv[b]).0 by {
                assert(self.entry_seq()[a] == pv[a]);
                assert(self.entry_seq()[b] == pv[b]);
            }
        }
        let mut i: usize = 0;
        while i < self.entries.len()
            invariant
                i <= self.entries@.len(),
                pv == self.entry_seq(),
                forall|a: int, b: int|
                    0 <= a < b < pv.len() ==> (#[trigger] pv[a]).0 != (#[trigger] pv[b]).0,
                forall|j: int| 0 <= j < i ==> (#[trigger] pv[j]).0 != key@,
            decreases self.entries@.len() - i,
        {
            if bytes_eq(&self.entries[i].0, key) {
                let v = crate::bytes::sub_vec(&self.entries[i].1, 0, self.entries[i].1.len());
                proof {
                    assert(pv[i as int].0 == key@);
                    lemma_entries_map_at(pv, i as int);
                    assert(v@ =~= pv[i as int].1);
                }
                return Some(v);
            }
            i += 1;
        }
        proof {
            lemma_entries_map_contains(pv, key@);
        }
        None
    }

    /// Store a blob identifier for a content hash: a fresh hash gains an
    /// entry, a known one has its entry replaced. Nothing is ever removed.
    pub fn put(&mut self, key: Vec<u8>, value: Vec<u8>)
        requires
            old(self).wf(),
        ensures
            final(self)@ == old(self)@.insert(key@, value@),
            final(self).wf(),
            old(self).clean() && json_clean(key@) && json_clean(value@) ==> final(self).clean(),
    {
        let ghost pv = old(self).entry_seq();
        let ghost kc = old(self).clean() && json_clean(key@) && json_clean(value@);
        proof {
            assert forall|a: int, b: int| 0 <= a < b < pv.len() implies (#[trigger] pv[a]).0 != (
            #[trigger] pv[b]).0 by {
                assert(old(self).entry_seq()[a] == pv[a]);
                assert(old(self).entry_seq()[b] == pv[b]);
            }
            assert forall|j: int| 0 <= j < pv.len() && kc implies json_clean(
                (#[trigger] pv[j]).0,
            ) && json_clean(pv[j].1) by {
                assert(old(self).entry_seq()[j] == pv[j]);
            }
        }
        let mut i: usize = 0;
        while i < self.entries.len()
            invariant
                i <= self.entries@.len(),
                pv == self.entry_seq(),
                kc == (old(self).clean() && json_clean(key@) && json_clean(value@)),
                self@ == old(self)@,
                forall|a: int, b: int|
                    0 <= a < b < pv.len() ==> (#[trigger] pv[a]).0 != (#[trigger] pv[b]).0,
                forall|j: int| 0 <= j < pv.len() && kc ==> json_clean((#[trigger] pv[j]).0)
                    && json_clean(pv[j].1),
                forall|j: int| 0 <= j < i ==> (#[trigger] pv[j]).0 != key@,
            decreases self.entries@.len() - i,
        {
            if bytes_eq(&self.entries[i].0, &key) {
                proof {
                    assert(pv[i as int].0 == key@);
                }
                let _ = self.entries.remove(i);
                self.entries.insert(i, (key, value));
                proof {
                    let npv = self.entry_seq();
                    assert(npv =~= pv.update(i as int, (key@, value@)));
                    lemma_entries_map_update(pv, i as int, (key@, value@));
                    assert forall|a: int, b: int| 0 <= a < b < npv.len() implies (
                    #[trigger] npv[a]).0 != (#[trigger] npv[b]).0 by {
                        assert(npv[a].0 == pv[a].0 && npv[b].0 == pv[b].0);
                    }
                    if kc {
                        assert forall|j: int| 0 <= j < npv.len() implies json_clean(
                            (#[trigger] npv[j]).0,
                        ) && json_clean(npv[j].1) by {
                            if j != i {
                                assert(npv[j] == pv[j]);
                            }
                        }
                    }
                }
                return ;
            }
            i += 1;
        }
        self.entries.push((key, value));
        proof {
            let npv = self.entry_seq();
            assert(npv.drop_last() =~= pv);
            assert(npv.last() == (key@, value@));
            lemma_entries_map_contains(pv, key@);
            assert forall|a: int, b: int| 0 <= a < b < npv.len() implies (#[trigger] npv[a]).0 != (
            #[trigger] npv[b]).0 by {
                if b == npv.len() - 1 {
                    assert(npv[a] == pv[a]);
                    assert(pv[a].0 != key@);
                } else {
                    assert(npv[a] == pv[a] && npv[b] == pv[b]);
                }
            }
            if kc {
                assert forall|j: int| 0 <= j < npv.len() implies json_clean(
                    (#[trigger] npv[j]).0,
                ) && json_clean(npv[j].1) by {
                    if j < npv.len() - 1 {
                        assert(npv[j] == pv[j]);
                    }
                }
            }
        }
    }

    /// The number of entries.
    pub fn len(&self) -> (r: usize)
        ensures
            r == self.entry_seq().len(),
    {
        self.entries.len()
    }

    /// Encode the mapping as its JSON document.
    pub fn encode_mapping(&self) -> (r: Vec<u8>)
        ensures
            r@ == spec_encode_object(str_pairs(self.entry_seq())),
    {
        let ghost pv = pairs_view(self.entries@);
        let mut pairs: Vec<(Vec<u8>, JsonVal)> = Vec::new();
        let mut i: usize = 0;
        proof {
            assert(obj_view(pairs@) =~= str_pairs(pv).take(0));
        }
        while i < self.entries.len()
            invariant
                i <= self.entries@.len(),
                pv == pairs_view(self.entries@),
                obj_view(pairs@) == str_pairs(pv).take(i as int),
            decreases self.entries@.len() - i,
        {
            let ghost prev = obj_view(pairs@);
            let k = crate::bytes::sub_vec(&self.entries[i].0, 0, self.entries[i].0.len());
            let v = crate::bytes::sub_vec(&self.entries[i].1, 0, self.entries[i].1.len());
            pairs.push((k, JsonVal::Str(v)));
            proof {
                assert(k@ == pv[i as int].0 && v@ == pv[i as int].1);
                assert(obj_view(pairs@) =~~= prev.push((k@, SpecJson::Str(v@))));
                assert(str_pairs(pv).take(i + 1) =~~= str_pairs(pv).take(i as int).push(
                    (pv[i as int].0, SpecJson::Str(pv[i as int].1)),
                ));
                assert(obj_view(pairs@) =~~= str_pairs(pv).take(i + 1));
            }
            i += 1;
        }
        proof {
            assert(str_pairs(pv).take(i as int) =~= str_pairs(pv));
        }
        encode_object(&pairs)
    }
}

/// Entries as JSON object pairs: each value a string.
pub open spec fn str_pairs(s: Seq<(Seq<u8>, Seq<u8>)>) -> Seq<(Seq<u8>, SpecJson)> {
    Seq::new(s.len(), |i: int| (s[i].0, SpecJson::Str(s[i].1)))
}

/// Read object pairs back as entries; `None` when some value is not a string.
pub open spec fn as_str_pairs(ps: Seq<(Seq<u8>, SpecJson)>) -> Option<Seq<(Seq<u8>, Seq<u8>)>>
    decreases ps.len(),
{
    if ps.len() == 0 {
        Some(seq![])
    } else {
        match (as_str_pairs(ps.drop_last()), ps.last().1) {
            (Some(r), SpecJson::Str(v)) => Some(r.push((ps.last().0, v))),
            _ => None,
        }
    }
}

/// What a mapping document denotes: its pairs, all string-valued, as a map.
pub open spec fn spec_decode_mapping(s: Seq<u8>) -> Option<Map<Seq<u8>, Seq<u8>>> {
    match object_parse(s) {
        Some(ps) => match as_str_pairs(ps) {
            Some(sp) => Some(entries_map(sp)),
            None => None,
        },
        None => None,
    }
}

proof fn lemma_as_str_pairs_prefix_none(ps: Seq<(Seq<u8>, SpecJson)>, i: int)
    requires
        0 <= i <= ps.len(),
        as_str_pairs(ps.take(i)) is None,
    ensures
        as_str_pairs(ps) is None,
    decreases ps.len() - i,
{
    if i == ps.len() {
        assert(ps.take(i) =~= ps);
    } else {
        assert(ps.take(i + 1).drop_last() =~= ps.take(i));
        lemma_as_str_pairs_prefix_none(ps, i + 1);
    }
}

/// Decode a mapping document. Succeeds exactly on one flat JSON object with
/// string values, and yields the mapping it denotes.
pub fn decode_mapping(text: &Vec<u8>) -> (r: Option<BlobMapping>)
    ensures
        match r {
            Some(m) => spec_decode_mapping(text@) == Some(m@) && m.wf(),
            None => spec_decode_mapping(text@) is None,
        },
{
    let pairs = match parse_object(text) {
        Some(ps) => ps,
        None => {
            return None;
        },
    };
    let ghost ov = obj_view(pairs@);
    let mut m = BlobMapping::new();
    let mut i: usize = 0;
    let ghost mut done: Seq<(Seq<u8>, Seq<u8>)> = seq![];
    proof {
        assert(ov.take(0) =~= Seq::<(Seq<u8>, SpecJson)>::empty());
        assert(as_str_pairs(ov.take(0)) == Some(done));
    }
    while i < pairs.len()
        invariant
            i <= pairs@.len(),
            ov == obj_view(pairs@),
            object_parse(text@) == Some(ov),
            as_str_pairs(ov.take(i as int)) == Some(done),
            m@ == entries_map(done),
            m.wf(),
        decreases pairs@.len() - i,
    {
        let ghost prev = done;
        proof {
            assert(ov.take(i + 1).drop_last() =~= ov.take(i as int));
            assert(ov.take(i + 1).last() == ov[i as int]);
            assert(ov[i as int] == (pairs@[i as int].0@, pairs@[i as int].1.view_val()));
        }
        match &pairs[i].1 {
            JsonVal::Str(v) => {
                let k = crate::bytes::sub_vec(&pairs[i].0, 0, pairs[i].0.len());
                let vv = crate::bytes::sub_vec(v, 0, v.len());
                proof {
                    assert(k@ =~= pairs@[i as int].0@);
                    assert(vv@ =~= v@);
                }
                m.put(k, vv);
                proof {
                    assert(pairs@[i as int].1.view_val() == SpecJson::Str(v@));
                    done = prev.push((pairs@[i as int].0@, v@));
                    assert(done.drop_last() =~= prev);
                    assert(done.last() == (pairs@[i as int].0@, v@));
                    assert(entries_map(done) == entries_map(prev).insert(
                        pairs@[i as int].0@,
                        v@,
                    ));
                }
            },
            _ => {
                proof {
                    assert(pairs@[i as int].1 !is Str);
                    assert(ov.take(i + 1).last().1 == pairs@[i as int].1.view_val());
                    assert(!(pairs@[i as int].1.view_val() is Str));
                    assert(as_str_pairs(ov.take(i + 1)) is None);
                    lemma_as_str_pairs_prefix_none(ov, i + 1);
                    assert(as_str_pairs(ov) is None);
                    assert(object_parse(text@) == Some(ov));
                    assert(spec_decode_mapping(text@) is None);
                }
                return None;
            },
        }
        i += 1;
    }
    proof {
        assert(ov.take(i as int) =~= ov);
    }
    Some(m)
}

/// The law of the mapping store: after a blob identifier is stored for a
/// hash, looking the hash up yields that identifier; storing another
/// identifier for the same hash replaces it; no store removes a mapping.
pub proof fn lemma_mapping_round_trip(
    m: Map<Seq<u8>, Seq<u8>>,
    h: Seq<u8>,
    id: Seq<u8>,
    id2: Seq<u8>,
)
    ensures
        m.insert(h, id).contains_key(h),
        m.insert(h, id)[h] == id,
        m.insert(h, id).insert(h, id2).contains_key(h),
        m.insert(h, id).insert(h, id2)[h] == id2,
        forall|k: Seq<u8>| m.contains_key(k) ==> m.insert(h, id).contains_key(k),
{
}

/// Writing a mapping out and reading the document back gives the same map.
/// The premise holds of every mapping this library builds: hex hashes and
/// backend identifiers carry no control bytes.
pub proof fn lemma_mapping_document_round_trip(sp: Seq<(Seq<u8>, Seq<u8>)>)
    requires
        forall|i: int|
            0 <= i < sp.len() ==> json_clean((#[trigger] sp[i]).0) && json_clean(sp[i].1),
    ensures
        spec_decode_mapping(spec_encode_object(str_pairs(sp))) == Some(entries_map(sp)),
{
    assert(crate::json::pairs_clean(str_pairs(sp))) by {
        assert forall|i: int| 0 <= i < str_pairs(sp).len() implies json_clean(
            (#[trigger] str_pairs(sp)[i]).0,
        ) && crate::json::value_clean(str_pairs(sp)[i].1) by {
            assert(str_pairs(sp)[i] == (sp[i].0, SpecJson::Str(sp[i].1)));
        }
    }
    crate::json::lemma_object_round_trip(str_pairs(sp));
    lemma_as_str_pairs_of_str_pairs(sp);
}

proof fn lemma_as_str_pairs_of_str_pairs(sp: Seq<(Seq<u8>, Seq<u8>)>)
    ensures
        as_str_pairs(str_pairs(sp)) == Some(sp),
    decreases sp.len(),
{
    if sp.len() == 0 {
        assert(as_str_pairs(str_pairs(sp)) == Some(Seq::<(Seq<u8>, Seq<u8>)>::empty()));
        assert(sp =~= Seq::<(Seq<u8>, Seq<u8>)>::empty());
    } else {
        lemma_as_str_pairs_of_str_pairs(sp.drop_last());
        assert(str_pairs(sp).drop_last() =~= str_pairs(sp.drop_last()));
        assert(str_pairs(sp).last() == (sp.last().0, SpecJson::Str(sp.last().1)));
        assert(sp.drop_last().push((sp.last().0, sp.last().1)) =~= sp);
    }
}

} // verus!
