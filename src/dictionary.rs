//! The dictionary that gives each AVP code its semantic type.
use vstd::prelude::*;
use crate::model::{lookup_type, AvpType};

verus! {

/// One declared AVP: its code, its vendor (none for base-protocol AVPs), its name and type.
#[derive(Debug)]
pub struct DictEntry {
    pub code: u32,
    pub vendor_id: Option<u32>,
    pub name: String,
    pub avp_type: AvpType,
}

/// A mapping from `(code, vendor id)` to the declared AVP type. When a key is declared
/// more than once, the latest declaration wins.
#[derive(Debug)]
pub struct Dictionary {
    entries: Vec<DictEntry>,
}

/// The map that a list of declarations defines, later declarations overriding earlier ones.
pub open spec fn entries_map(s: Seq<DictEntry>) -> Map<(u32, Option<u32>), AvpType>
    decreases s.len(),
{
    if s.len() == 0 {
        Map::empty()
    } else {
        let last = s[s.len() - 1];
        entries_map(s.subrange(0, s.len() - 1)).insert((last.code, last.vendor_id), last.avp_type)
    }
}

/// The names that a list of declarations gives, later declarations overriding earlier ones.
pub open spec fn entries_names(s: Seq<DictEntry>) -> Map<(u32, Option<u32>), Seq<char>>
    decreases s.len(),
{
    if s.len() == 0 {
        Map::empty()
    } else {
        let last = s[s.len() - 1];
        entries_names(s.subrange(0, s.len() - 1)).insert((last.code, last.vendor_id), last.name@)
    }
}

proof fn lemma_entries_map_push(s: Seq<DictEntry>, e: DictEntry)
    ensures
        entries_map(s.push(e)) == entries_map(s).insert((e.code, e.vendor_id), e.avp_type),
        entries_names(s.push(e)) == entries_names(s).insert((e.code, e.vendor_id), e.name@),
{
    assert(s.push(e).subrange(0, s.len() as int) =~= s);
}

proof fn lemma_entries_map_append(s: Seq<DictEntry>, t: Seq<DictEntry>)
    ensures
        entries_map(s + t) == entries_map(s).union_prefer_right(entries_map(t)),
        entries_names(s + t) == entries_names(s).union_prefer_right(entries_names(t)),
    decreases t.len(),
{
    if t.len() == 0 {
        assert(s + t =~= s);
        assert(entries_map(s).union_prefer_right(entries_map(t)) =~= entries_map(s));
        assert(entries_names(s).union_prefer_right(entries_names(t)) =~= entries_names(s));
    } else {
        let u = t.subrange(0, t.len() - 1);
        let e = t[t.len() - 1];
        assert(s + t =~= (s + u).push(e));
        assert(t =~= u.push(e));
        lemma_entries_map_push(s + u, e);
        lemma_entries_map_push(u, e);
        lemma_entries_map_append(s, u);
        assert(entries_map(s + t) =~= entries_map(s).union_prefer_right(entries_map(t)));
        assert(entries_names(s + t) =~= entries_names(s).union_prefer_right(entries_names(t)));
    }
}

impl View for Dictionary {
    type V = Map<(u32, Option<u32>), AvpType>;

    closed spec fn view(&self) -> Map<(u32, Option<u32>), AvpType> {
        entries_map(self.entries@)
    }
}

impl Dictionary {
    /// The declared name of each key.
    pub closed spec fn names(&self) -> Map<(u32, Option<u32>), Seq<char>> {
        entries_names(self.entries@)
    }

    /// No declared type is `Unknown`.
    pub closed spec fn wf(&self) -> bool {
        forall|i: int| 0 <= i < self.entries@.len() ==> #[trigger] self.entries@[i].avp_type
            != AvpType::Unknown
    }

    proof fn lemma_wf_values(&self)
        requires
            self.wf(),
        ensures
            forall|k| #[trigger] self@.contains_key(k) ==> self@[k] != AvpType::Unknown,
    {
        lemma_wf_prefix(self.entries@, self.entries@.len() as int);
        assert(self.entries@.subrange(0, self.entries@.len() as int) =~= self.entries@);
    }

    /// An empty dictionary.
    pub fn new() -> (r: Dictionary)
        ensures
            r.wf(),
            r@ == Map::<(u32, Option<u32>), AvpType>::empty(),
            r.names() == Map::<(u32, Option<u32>), Seq<char>>::empty(),
    {
        Dictionary { entries: Vec::new() }
    }

    /// Declares an AVP; a previous declaration of the same key is overridden.
    pub fn add(&mut self, code: u32, vendor_id: Option<u32>, name: String, avp_type: AvpType)
        requires
            old(self).wf(),
            avp_type != AvpType::Unknown,
        ensures
            final(self).wf(),
            final(self)@ == old(self)@.insert((code, vendor_id), avp_type),
            final(self).names() == old(self).names().insert((code, vendor_id), name@),
    {
        let e = DictEntry { code, vendor_id, name, avp_type };
        proof {
            lemma_entries_map_push(self.entries@, e);
        }
        self.entries.push(e);
    }

    /// Declares an AVP as a dictionary source writes it, where vendor id 0 stands for no vendor.
    pub fn add_source_entry(&mut self, code: u32, vendor_id: u32, name: String, avp_type: AvpType)
        requires
            old(self).wf(),
            avp_type != AvpType::Unknown,
        ensures
            final(self).wf(),
            final(self)@ == old(self)@.insert(
                (code, if vendor_id == 0 { None } else { Some(vendor_id) }),
                avp_type,
            ),
    {
        let vendor = if vendor_id == 0 {
            None
        } else {
            Some(vendor_id)
        };
        self.add(code, vendor, name, avp_type);
    }

    /// Adds every declaration of `later`, in order; its declarations win over this one's.
    pub fn merge(&mut self, later: &Dictionary)
        requires
            old(self).wf(),
            later.wf(),
        ensures
            final(self).wf(),
            final(self)@ == old(self)@.union_prefer_right(later@),
            final(self).names() == old(self).names().union_prefer_right(later.names()),
    {
        let ghost start = self.entries@;
        let mut i: usize = 0;
        while i < later.entries.len()
            invariant
                self.wf(),
                later.wf(),
                i <= later.entries@.len(),
                self.entries@ == start + later.entries@.subrange(0, i as int),
            decreases later.entries@.len() - i,
        {
            let src = &later.entries[i];
            let e = DictEntry {
                code: src.code,
                vendor_id: src.vendor_id,
                name: src.name.clone(),
                avp_type: src.avp_type,
            };
            self.entries.push(e);
            i = i + 1;
            assert(self.entries@ =~= start + later.entries@.subrange(0, i as int));
        }
        proof {
            assert(later.entries@.subrange(0, i as int) =~= later.entries@);
            lemma_entries_map_append(start, later.entries@);
        }
    }

    /// The declared type of `(code, vendor_id)`, or `Unknown` when nothing was declared for it.
    pub fn get_avp_type(&self, code: u32, vendor_id: Option<u32>) -> (r: AvpType)
        requires
            self.wf(),
        ensures
            r == lookup_type(self@, code, vendor_id),
            (r == AvpType::Unknown) == !self@.contains_key((code, vendor_id)),
    {
        let mut i: usize = self.entries.len();
        assert(self.entries@.subrange(0, i as int) =~= self.entries@);
        while i > 0
            invariant
                self.wf(),
                i <= self.entries@.len(),
                lookup_type(self@, code, vendor_id) == lookup_type(
                    entries_map(self.entries@.subrange(0, i as int)),
                    code,
                    vendor_id,
                ),
            decreases i,
        {
            let e = &self.entries[i - 1];
            let ghost pre = self.entries@.subrange(0, i - 1);
            assert(self.entries@.subrange(0, i as int) =~= pre.push(*e));
            proof {
                lemma_entries_map_push(pre, *e);
            }
            if e.code == code && opt_eq(e.vendor_id, vendor_id) {
                proof {
                    self.lemma_wf_values();
                }
                return e.avp_type;
            }
            i = i - 1;
        }
        proof {
            assert(self.entries@.subrange(0, 0) =~= Seq::<DictEntry>::empty());
            self.lemma_wf_values();
        }
        AvpType::Unknown
    }

    /// The name declared for `(code, vendor_id)`, if any.
    pub fn get_avp_name(&self, code: u32, vendor_id: Option<u32>) -> (r: Option<String>)
        ensures
            r is Some == self@.contains_key((code, vendor_id)),
            r matches Some(n) ==> n@ == self.names()[(code, vendor_id)],
    {
        let mut i: usize = self.entries.len();
        assert(self.entries@.subrange(0, i as int) =~= self.entries@);
        proof {
            lemma_same_keys(self.entries@);
        }
        while i > 0
            invariant
                i <= self.entries@.len(),
                self@.contains_key((code, vendor_id)) == entries_map(
                    self.entries@.subrange(0, i as int),
                ).contains_key((code, vendor_id)),
                self.names().contains_key((code, vendor_id)) ==> self.names()[(code, vendor_id)]
                    == entries_names(self.entries@.subrange(0, i as int))[(code, vendor_id)],
                entries_names(self.entries@).contains_key((code, vendor_id)) == entries_map(
                    self.entries@,
                ).contains_key((code, vendor_id)),
            decreases i,
        {
            let e = &self.entries[i - 1];
            let ghost pre = self.entries@.subrange(0, i - 1);
            assert(self.entries@.subrange(0, i as int) =~= pre.push(*e));
            proof {
                lemma_entries_map_push(pre, *e);
            }
            if e.code == code && opt_eq(e.vendor_id, vendor_id) {
                return Some(e.name.clone());
            }
            i = i - 1;
        }
        assert(self.entries@.subrange(0, 0) =~= Seq::<DictEntry>::empty());
        None
    }
}

proof fn lemma_wf_prefix(s: Seq<DictEntry>, n: int)
    requires
        0 <= n <= s.len(),
        forall|i: int| 0 <= i < s.len() ==> #[trigger] s[i].avp_type != AvpType::Unknown,
    ensures
        forall|k| #[trigger] entries_map(s.subrange(0, n)).contains_key(k) ==> entries_map(
            s.subrange(0, n),
        )[k] != AvpType::Unknown,
    decreases n,
{
    if n > 0 {
        lemma_wf_prefix(s, n - 1);
        let p = s.subrange(0, n);
        assert(p.subrange(0, n - 1) =~= s.subrange(0, n - 1));
    }
}

proof fn lemma_same_keys(s: Seq<DictEntry>)
    ensures
        entries_names(s).dom() == entries_map(s).dom(),
    decreases s.len(),
{
    if s.len() > 0 {
        lemma_same_keys(s.subrange(0, s.len() - 1));
        assert(entries_names(s).dom() =~= entries_map(s).dom());
    }
}

fn opt_eq(a: Option<u32>, b: Option<u32>) -> (r: bool)
    ensures
        r == (a == b),
{
    match (a, b) {
        (Some(x), Some(y)) => x == y,
        (None, None) => true,
        _ => false,
    }
}

} // verus!
