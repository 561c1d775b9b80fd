//! The schema: the options that a program declares, by key.

use vstd::prelude::*;
use vstd::string::StringExecFns;

verus! {

/// The two kinds of option.
#[allow(non_camel_case_types)]
#[derive(Debug, Clone, Copy, PartialEq, Eq, Structural)]
pub enum GetOptType {
    /// Takes a string value.
    OPT,
    /// Takes no value: its presence is the signal.
    FLAG,
}

impl GetOptType {
    /// The kind that the tag `tag` stands for, if any. Tags are case-sensitive.
    pub open spec fn of_tag(tag: Seq<char>) -> Option<GetOptType> {
        if tag == "FLAG"@ {
            Some(GetOptType::FLAG)
        } else if tag == "OPT"@ {
            Some(GetOptType::OPT)
        } else {
            None
        }
    }

    /// Reads a kind from its tag.
    pub fn from_tag(tag: &String) -> (kind: Option<GetOptType>)
        ensures
            kind == Self::of_tag(tag@),
    {
        if *tag == String::from_str("FLAG") {
            Some(GetOptType::FLAG)
        } else if *tag == String::from_str("OPT") {
            Some(GetOptType::OPT)
        } else {
            None
        }
    }
}

/// One declared option. The kind is kept as the tag that the schema gave, and
/// is read only when the option is registered.
#[derive(Debug, Clone, PartialEq, Eq)]
pub struct GetOptOption {
    /// Free text shown in the usage listing.
    pub description: String,
    /// Used as `--long_name`.
    pub long_name: String,
    /// Used as `-short_name`.
    pub short_name: String,
    /// `OPT` or `FLAG`.
    pub get_opt_type: String,
}

/// The mathematical value of a [`GetOptOption`].
pub struct OptionView {
    pub description: Seq<char>,
    pub long_name: Seq<char>,
    pub short_name: Seq<char>,
    pub get_opt_type: Seq<char>,
}

impl View for GetOptOption {
    type V = OptionView;

    open spec fn view(&self) -> OptionView {
        OptionView {
            description: self.description@,
            long_name: self.long_name@,
            short_name: self.short_name@,
            get_opt_type: self.get_opt_type@,
        }
    }
}

/// `a` and `b` agree on their first `k` characters, and there `a` ends
/// before `b` does or has the smaller character.
pub open spec fn precedes_at(a: Seq<char>, b: Seq<char>, k: int) -> bool {
    &&& 0 <= k <= a.len()
    &&& k <= b.len()
    &&& forall|j: int| 0 <= j < k ==> a[j] == b[j]
    &&& if k == a.len() {
        k < b.len()
    } else {
        k < b.len() && (a[k] as u32) < (b[k] as u32)
    }
}

/// The order of the keys: `a` comes before `b`, character by character.
pub open spec fn key_lt(a: Seq<char>, b: Seq<char>) -> bool {
    exists|k: int| precedes_at(a, b, k)
}

/// No key comes before itself.
pub proof fn lemma_key_lt_irreflexive(a: Seq<char>)
    ensures
        !key_lt(a, a),
{
}

/// The order of the keys is transitive.
pub proof fn lemma_key_lt_transitive(a: Seq<char>, b: Seq<char>, c: Seq<char>)
    requires
        key_lt(a, b),
        key_lt(b, c),
    ensures
        key_lt(a, c),
{
    let k1 = choose|k: int| precedes_at(a, b, k);
    let k2 = choose|k: int| precedes_at(b, c, k);
    if k1 <= k2 {
        assert(precedes_at(a, c, k1));
    } else {
        assert(precedes_at(a, c, k2));
    }
}

/// How one key stands to another.
enum KeyOrder {
    Before,
    Same,
    After,
}

/// Compares two keys character by character.
fn compare_keys(a: &String, b: &String) -> (o: KeyOrder)
    ensures
        match o {
            KeyOrder::Before => key_lt(a@, b@),
            KeyOrder::Same => a@ == b@,
            KeyOrder::After => key_lt(b@, a@),
        },
{
    let la: usize = a.as_str().unicode_len();
    let lb: usize = b.as_str().unicode_len();
    let mut i: usize = 0;
    while i < la && i < lb
        invariant
            la == a@.len(),
            lb == b@.len(),
            i <= la,
            i <= lb,
            forall|j: int| 0 <= j < i ==> a@[j] == b@[j],
        decreases la - i,
    {
        let ca = a.as_str().get_char(i);
        let cb = b.as_str().get_char(i);
        if ca != cb {
            if (ca as u32) < (cb as u32) {
                assert(precedes_at(a@, b@, i as int));
                return KeyOrder::Before;
            } else {
                assert(precedes_at(b@, a@, i as int));
                return KeyOrder::After;
            }
        }
        i += 1;
    }
    if la == lb {
        assert(a@ =~= b@);
        KeyOrder::Same
    } else if la < lb {
        assert(precedes_at(a@, b@, i as int));
        KeyOrder::Before
    } else {
        assert(precedes_at(b@, a@, i as int));
        KeyOrder::After
    }
}

/// Whether some entry has the key `key`.
pub open spec fn has_key(entries: Seq<(Seq<char>, OptionView)>, key: Seq<char>) -> bool {
    exists|i: int| 0 <= i < entries.len() && (#[trigger] entries[i]).0 == key
}

/// The place of an entry with the key `key`.
pub open spec fn place_of(entries: Seq<(Seq<char>, OptionView)>, key: Seq<char>) -> int {
    choose|i: int| 0 <= i < entries.len() && (#[trigger] entries[i]).0 == key
}

/// The keys stand in strictly ascending order, so none occurs twice.
pub open spec fn ascending(entries: Seq<(Seq<char>, OptionView)>) -> bool {
    forall|i: int, j: int|
        0 <= i < j < entries.len() ==> key_lt((#[trigger] entries[i]).0, (#[trigger] entries[j]).0)
}

/// The mapping that the entries stand for.
pub open spec fn mapping_of(entries: Seq<(Seq<char>, OptionView)>) -> Map<Seq<char>, OptionView> {
    Map::new(|k: Seq<char>| has_key(entries, k), |k: Seq<char>| entries[place_of(entries, k)].1)
}

/// The option that stands under `q` once `o` was put under `k`.
spec fn before_or(
    before: Seq<(Seq<char>, OptionView)>,
    k: Seq<char>,
    o: OptionView,
    q: Seq<char>,
) -> OptionView {
    if q == k {
        o
    } else {
        mapping_of(before)[q]
    }
}

/// The keys of the first `n` entries.
spec fn keys_upto(entries: Seq<(Seq<char>, OptionView)>, n: int) -> Set<Seq<char>> {
    Set::new(|k: Seq<char>| exists|i: int| 0 <= i < n && (#[trigger] entries[i]).0 == k)
}

/// Among ascending entries a key has one place only.
pub proof fn lemma_one_place(entries: Seq<(Seq<char>, OptionView)>, i: int, j: int)
    requires
        ascending(entries),
        0 <= i < entries.len(),
        0 <= j < entries.len(),
        entries[i].0 == entries[j].0,
    ensures
        i == j,
{
    lemma_key_lt_irreflexive(entries[i].0);
}

/// Among ascending entries the mapping gives each key the option that stands
/// beside it.
pub proof fn lemma_lookup(entries: Seq<(Seq<char>, OptionView)>, i: int)
    requires
        ascending(entries),
        0 <= i < entries.len(),
    ensures
        mapping_of(entries).dom().contains(entries[i].0),
        mapping_of(entries)[entries[i].0] == entries[i].1,
{
    lemma_one_place(entries, i, place_of(entries, entries[i].0));
}

/// The first `n` of ascending entries have `n` keys.
proof fn lemma_keys_counted(entries: Seq<(Seq<char>, OptionView)>, n: int)
    requires
        ascending(entries),
        0 <= n <= entries.len(),
    ensures
        keys_upto(entries, n).finite(),
        keys_upto(entries, n).len() == n,
    decreases n,
{
    if n == 0 {
        assert(keys_upto(entries, 0) =~= Set::<Seq<char>>::empty());
    } else {
        lemma_keys_counted(entries, n - 1);
        let last = entries[n - 1].0;
        assert(!keys_upto(entries, n - 1).contains(last)) by {
            if keys_upto(entries, n - 1).contains(last) {
                let i = choose|i: int| 0 <= i < n - 1 && (#[trigger] entries[i]).0 == last;
                lemma_one_place(entries, i, n - 1);
            }
        }
        assert(keys_upto(entries, n) =~= keys_upto(entries, n - 1).insert(last));
    }
}

/// The mapping that a document's entries give when they are read one by one:
/// a later entry takes the place of an earlier one under the same key.
pub open spec fn collected(pairs: Seq<(Seq<char>, OptionView)>) -> Map<Seq<char>, OptionView>
    decreases pairs.len(),
{
    if pairs.len() == 0 {
        Map::empty()
    } else {
        collected(pairs.drop_last()).insert(pairs.last().0, pairs.last().1)
    }
}

/// No key occurs twice among the entries.
pub open spec fn distinct_keys(pairs: Seq<(Seq<char>, OptionView)>) -> bool {
    forall|i: int, j: int|
        0 <= i < j < pairs.len() ==> (#[trigger] pairs[i]).0 != (#[trigger] pairs[j]).0
}

/// The views of a document's entries.
pub open spec fn pairs_of(entries: Seq<(String, GetOptOption)>) -> Seq<(Seq<char>, OptionView)> {
    Seq::new(entries.len(), |i: int| (entries[i].0@, entries[i].1@))
}

/// The schema: the declared options by key, in ascending order of the keys.
#[derive(Debug, Clone)]
pub struct GetOptConfig {
    options: Vec<(String, GetOptOption)>,
}

impl View for GetOptConfig {
    type V = Map<Seq<char>, OptionView>;

    open spec fn view(&self) -> Map<Seq<char>, OptionView> {
        mapping_of(self.entries())
    }
}

impl GetOptConfig {
    /// The keys with their options, in the order in which they are held.
    pub closed spec fn entries(&self) -> Seq<(Seq<char>, OptionView)> {
        Seq::new(self.options@.len(), |i: int| (self.options@[i].0@, self.options@[i].1@))
    }

    /// The keys ascend. Every schema that `new` and `insert` make is of this
    /// form.
    pub open spec fn wf(&self) -> bool {
        ascending(self.entries())
    }

    /// A schema without entries.
    pub fn new() -> (config: GetOptConfig)
        ensures
            config.wf(),
            config.entries() == Seq::<(Seq<char>, OptionView)>::empty(),
            config@ == Map::<Seq<char>, OptionView>::empty(),
    {
        let config = GetOptConfig { options: Vec::new() };
        assert(config.entries() =~= Seq::<(Seq<char>, OptionView)>::empty());
        assert(config@ =~= Map::<Seq<char>, OptionView>::empty());
        config
    }

    /// The schema that a document's entries give, read one by one.
    pub fn from_entries(entries: &Vec<(String, GetOptOption)>) -> (config: GetOptConfig)
        ensures
            config.wf(),
            config@ == collected(pairs_of(entries@)),
    {
        let mut config = GetOptConfig::new();
        let n: usize = entries.len();
        let mut i: usize = 0;
        assert(pairs_of(entries@).take(0) =~= Seq::<(Seq<char>, OptionView)>::empty());
        while i < n
            invariant
                n == entries@.len(),
                i <= n,
                config.wf(),
                config@ == collected(pairs_of(entries@).take(i as int)),
            decreases n - i,
        {
            let source = &entries[i].1;
            let option = GetOptOption {
                description: source.description.clone(),
                long_name: source.long_name.clone(),
                short_name: source.short_name.clone(),
                get_opt_type: source.get_opt_type.clone(),
            };
            proof {
                let upto = pairs_of(entries@).take(i + 1);
                assert(upto.drop_last() =~= pairs_of(entries@).take(i as int));
                assert(upto.last() == (entries@[i as int].0@, entries@[i as int].1@));
            }
            config.insert(entries[i].0.clone(), option);
            i += 1;
        }
        assert(pairs_of(entries@).take(n as int) =~= pairs_of(entries@));
        config
    }

    /// The number of entries.
    pub fn len(&self) -> (n: usize)
        ensures
            n == self.entries().len(),
    {
        self.options.len()
    }

    /// The key of the entry at `index`.
    pub fn key_at(&self, index: usize) -> (key: &String)
        requires
            index < self.entries().len(),
        ensures
            key@ == self.entries()[index as int].0,
    {
        &self.options[index].0
    }

    /// The option of the entry at `index`.
    pub fn option_at(&self, index: usize) -> (option: &GetOptOption)
        requires
            index < self.entries().len(),
        ensures
            option@ == self.entries()[index as int].1,
    {
        &self.options[index].1
    }

    /// Where `key` stands or would stand: every entry before that place has a
    /// smaller key, and every entry from it on a greater one, but for the
    /// entry at the place itself where the key was found.
    fn locate(&self, key: &String) -> (r: (usize, bool))
        requires
            self.wf(),
        ensures
            r.0 <= self.entries().len(),
            forall|j: int| 0 <= j < r.0 ==> key_lt((#[trigger] self.entries()[j]).0, key@),
            r.1 ==> r.0 < self.entries().len() && self.entries()[r.0 as int].0 == key@,
            !r.1 ==> forall|j: int|
                r.0 <= j < self.entries().len() ==> key_lt(
                    key@,
                    (#[trigger] self.entries()[j]).0,
                ),
            r.1 == has_key(self.entries(), key@),
    {
        let n: usize = self.options.len();
        let mut p: usize = 0;
        while p < n
            invariant
                n == self.entries().len(),
                n == self.options@.len(),
                p <= n,
                self.wf(),
                forall|j: int| 0 <= j < p ==> key_lt((#[trigger] self.entries()[j]).0, key@),
            decreases n - p,
        {
            match compare_keys(&self.options[p].0, key) {
                KeyOrder::Before => {
                    p += 1;
                },
                KeyOrder::Same => {
                    assert(self.entries()[p as int].0 == key@);
                    return (p, true);
                },
                KeyOrder::After => {
                    proof {
                        let here = self.entries()[p as int].0;
                        assert forall|j: int| p <= j < self.entries().len() implies key_lt(
                            key@,
                            (#[trigger] self.entries()[j]).0,
                        ) by {
                            if j > p {
                                lemma_key_lt_transitive(key@, here, self.entries()[j].0);
                            }
                        }
                        self.lemma_absent(key@, p as int);
                    }
                    return (p, false);
                },
            }
        }
        proof {
            self.lemma_absent(key@, p as int);
        }
        (p, false)
    }

    /// A key that stands between the entries before `p` and those from `p` on
    /// is the key of none.
    proof fn lemma_absent(&self, key: Seq<char>, p: int)
        requires
            0 <= p <= self.entries().len(),
            forall|j: int| 0 <= j < p ==> key_lt((#[trigger] self.entries()[j]).0, key),
            forall|j: int|
                p <= j < self.entries().len() ==> key_lt(key, (#[trigger] self.entries()[j]).0),
        ensures
            !has_key(self.entries(), key),
    {
        lemma_key_lt_irreflexive(key);
    }

    /// Whether the schema has an entry under `key`.
    pub fn contains_key(&self, key: &String) -> (b: bool)
        requires
            self.wf(),
        ensures
            b == self@.dom().contains(key@),
    {
        let (_, found) = self.locate(key);
        found
    }

    /// The option under `key`, if there is one.
    pub fn get(&self, key: &String) -> (r: Option<&GetOptOption>)
        requires
            self.wf(),
        ensures
            match r {
                Some(option) => self@.dom().contains(key@) && self@[key@] == option@,
                None => !self@.dom().contains(key@),
            },
    {
        let (place, found) = self.locate(key);
        if found {
            proof {
                lemma_lookup(self.entries(), place as int);
            }
            Some(&self.options[place].1)
        } else {
            None
        }
    }

    /// Puts `option` under `key`, in place of what stood there. Returns
    /// whether the key is new.
    pub fn insert(&mut self, key: String, option: GetOptOption) -> (fresh: bool)
        requires
            old(self).wf(),
        ensures
            final(self).wf(),
            final(self)@ == old(self)@.insert(key@, option@),
            fresh == !old(self)@.dom().contains(key@),
            final(self).entries().len() == old(self).entries().len() + if fresh {
                1int
            } else {
                0int
            },
    {
        let (place, found) = self.locate(&key);
        let ghost before = self.entries();
        let ghost k = key@;
        let ghost o = option@;
        if found {
            self.options.set(place, (key, option));
            proof {
                let after = self.entries();
                assert(after =~= before.update(place as int, (k, o)));
                assert forall|i: int, j: int| 0 <= i < j < after.len() implies key_lt(
                    (#[trigger] after[i]).0,
                    (#[trigger] after[j]).0,
                ) by {
                    assert(after[i].0 == before[i].0);
                    assert(after[j].0 == before[j].0);
                }
                assert forall|q: Seq<char>| has_key(after, q) <==> (q == k || has_key(before, q)) by {
                    if has_key(after, q) {
                        let i = place_of(after, q);
                        assert(before[i].0 == q);
                    }
                    if has_key(before, q) {
                        let i = place_of(before, q);
                        assert(after[i].0 == q);
                    }
                    if q == k {
                        assert(after[place as int].0 == q);
                    }
                }
                assert forall|q: Seq<char>| has_key(after, q) implies mapping_of(after)[q]
                    == before_or(before, k, o, q) by {
                    let i = place_of(after, q);
                    if q != k {
                        assert(before[i].0 == q);
                        lemma_lookup(before, i);
                    } else {
                        lemma_one_place(after, i, place as int);
                    }
                }
                assert(mapping_of(after) =~= mapping_of(before).insert(k, o));
            }
            false
        } else {
            self.options.insert(place, (key, option));
            proof {
                let after = self.entries();
                assert(after =~= before.insert(place as int, (k, o)));
                assert forall|i: int, j: int| 0 <= i < j < after.len() implies key_lt(
                    (#[trigger] after[i]).0,
                    (#[trigger] after[j]).0,
                ) by {
                    let bi = if i < place { i } else { i - 1 };
                    let bj = if j < place { j } else { j - 1 };
                    if i != place {
                        assert(after[i] == before[bi]);
                    }
                    if j != place {
                        assert(after[j] == before[bj]);
                    }
                }
                assert forall|q: Seq<char>| has_key(after, q) <==> (q == k || has_key(before, q)) by {
                    if has_key(after, q) {
                        let i = place_of(after, q);
                        if i != place {
                            let bi = if i < place { i } else { i - 1 };
                            assert(before[bi].0 == q);
                        }
                    }
                    if has_key(before, q) {
                        let i = place_of(before, q);
                        let ai = if i < place { i } else { i + 1 };
                        assert(after[ai].0 == q);
                    }
                    if q == k {
                        assert(after[place as int].0 == q);
                    }
                }
                assert forall|q: Seq<char>| has_key(after, q) implies mapping_of(after)[q]
                    == before_or(before, k, o, q) by {
                    let i = place_of(after, q);
                    if q != k {
                        let bi = if i < place { i } else { i - 1 };
                        assert(before[bi].0 == q);
                        lemma_lookup(before, bi);
                    } else {
                        lemma_one_place(after, i, place as int);
                    }
                }
                assert(mapping_of(after) =~= mapping_of(before).insert(k, o));
            }
            true
        }
    }
}

/// Entries under pairwise different keys give a mapping with as many keys as
/// there are entries, and each entry's option is found under its key.
pub proof fn law_every_declared_key_is_reachable(pairs: Seq<(Seq<char>, OptionView)>)
    requires
        distinct_keys(pairs),
    ensures
        collected(pairs).dom().finite(),
        collected(pairs).dom().len() == pairs.len(),
        forall|k: Seq<char>| collected(pairs).dom().contains(k) <==> has_key(pairs, k),
        forall|i: int|
            0 <= i < pairs.len() ==> collected(pairs).dom().contains((#[trigger] pairs[i]).0)
                && collected(pairs)[pairs[i].0] == pairs[i].1,
    decreases pairs.len(),
{
    if pairs.len() > 0 {
        let front = pairs.drop_last();
        let last = pairs.last();
        law_every_declared_key_is_reachable(front);
        assert(!has_key(front, last.0)) by {
            if has_key(front, last.0) {
                let i = place_of(front, last.0);
                assert(pairs[i].0 == pairs[pairs.len() - 1].0);
            }
        }
        assert forall|k: Seq<char>| collected(pairs).dom().contains(k) <==> has_key(pairs, k) by {
            if has_key(pairs, k) {
                let i = place_of(pairs, k);
                if i < pairs.len() - 1 {
                    assert(front[i].0 == k);
                }
            }
            if has_key(front, k) {
                let i = place_of(front, k);
                assert(pairs[i].0 == k);
            }
            if k == last.0 {
                assert(pairs[pairs.len() - 1].0 == k);
            }
        }
        assert forall|i: int| 0 <= i < pairs.len() implies collected(pairs).dom().contains(
            (#[trigger] pairs[i]).0,
        ) && collected(pairs)[pairs[i].0] == pairs[i].1 by {
            if i < pairs.len() - 1 {
                assert(front[i] == pairs[i]);
                assert(pairs[i].0 != pairs[pairs.len() - 1].0);
            }
        }
    }
}

/// A schema has as many keys as entries, and each entry's option is found
/// under its key.
pub proof fn law_every_entry_is_held(config: GetOptConfig)
    requires
        config.wf(),
    ensures
        config@.dom().finite(),
        config@.dom().len() == config.entries().len(),
        forall|i: int|
            0 <= i < config.entries().len() ==> config@.dom().contains(
                (#[trigger] config.entries()[i]).0,
            ) && config@[config.entries()[i].0] == config.entries()[i].1,
{
    let entries = config.entries();
    lemma_keys_counted(entries, entries.len() as int);
    assert(config@.dom() =~= keys_upto(entries, entries.len() as int));
    assert forall|i: int| 0 <= i < entries.len() implies config@.dom().contains(
        (#[trigger] entries[i]).0,
    ) && config@[entries[i].0] == entries[i].1 by {
        lemma_lookup(entries, i);
    }
}

} // verus!
