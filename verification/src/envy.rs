//! The store of a profile's entries, and the ways to load one.

use crate::files::{Files, OpenError};
use crate::source::{
    all_words, items_of, lemma_items_are_words, lines_of, pairs_view, parse_items,
};
use crate::text::is_word;
use vstd::hash_map::StringHashMap;
use vstd::prelude::*;
use vstd::string::StringExecFns;

verus! {

/// The file of the test profile.
pub const TEST_FILE: &'static str = ".env.test";

/// The file of the debug profile.
pub const DEBUG_FILE: &'static str = ".env.debug";

/// The file of the release profile.
pub const RELEASE_FILE: &'static str = ".env";

/// The mode that a program runs in, which decides the profile.
#[derive(Clone, Copy, Debug, PartialEq, Eq)]
pub enum Mode {
    Test,
    Debug,
    Release,
}

/// The path of the file that holds the profile of `mode`.
pub open spec fn profile_path(mode: Mode) -> Seq<char> {
    match mode {
        Mode::Test => TEST_FILE@,
        Mode::Debug => DEBUG_FILE@,
        Mode::Release => RELEASE_FILE@,
    }
}

impl Mode {
    /// The mode of a program that says whether it runs under test and whether
    /// it is a debug build: test comes first, then debug, then release.
    pub fn select(test: bool, debug: bool) -> (r: Mode)
        ensures
            test ==> r == Mode::Test,
            !test && debug ==> r == Mode::Debug,
            !test && !debug ==> r == Mode::Release,
    {
        if test {
            Mode::Test
        } else if debug {
            Mode::Debug
        } else {
            Mode::Release
        }
    }

    /// The path of the file that holds this mode's profile.
    pub fn path(self) -> (r: &'static str)
        ensures
            r@ == profile_path(self),
    {
        match self {
            Mode::Test => TEST_FILE,
            Mode::Debug => DEBUG_FILE,
            Mode::Release => RELEASE_FILE,
        }
    }
}

/// The store that a list of entries gives: each key with the value of the
/// last entry that has it.
pub open spec fn store_of(items: Seq<(Seq<char>, Seq<char>)>) -> Map<Seq<char>, Seq<char>>
    decreases items.len(),
{
    if items.len() == 0 {
        Map::empty()
    } else {
        store_of(items.drop_last()).insert(items.last().0, items.last().1)
    }
}

/// The store that the bytes of a file give.
pub open spec fn load_spec(bytes: Seq<u8>) -> Map<Seq<char>, Seq<char>> {
    store_of(items_of(lines_of(bytes)))
}

/// A store has finitely many entries, and every key and every value in it is
/// a word: not empty, with no white space at either end.
pub open spec fn well_formed(store: Map<Seq<char>, Seq<char>>) -> bool {
    &&& store.dom().finite()
    &&& forall|k: Seq<char>| #[trigger] store.contains_key(k) ==> is_word(k) && is_word(store[k])
}

/// What a load says of the files it was given: the store of the file at
/// `path`, or the failure to open it.
pub open spec fn loaded(files: Map<Seq<char>, Seq<u8>>, path: Seq<char>, r: Result<Envy, OpenError>)
    -> bool {
    &&& r is Ok <==> files.contains_key(path)
    &&& match r {
        Ok(envy) => envy@ == load_spec(files[path]),
        Err(e) => e.path@ == path,
    }
}

/// What a vector of strings holds.
pub open spec fn strings_view(v: Seq<String>) -> Seq<Seq<char>> {
    Seq::new(v.len(), |i: int| v[i]@)
}

/// A map of strings, each value taken as the characters it holds.
pub open spec fn values_view(m: Map<Seq<char>, String>) -> Map<Seq<char>, Seq<char>> {
    Map::new(|k: Seq<char>| m.contains_key(k), |k: Seq<char>| m[k]@)
}

/// Whether `items` names the key `k`.
pub open spec fn has_key(items: Seq<(Seq<char>, Seq<char>)>, k: Seq<char>) -> bool {
    exists|i: int| 0 <= i < items.len() && (#[trigger] items[i]).0 == k
}

/// No two entries of `items` have the same key.
pub open spec fn distinct_keys(items: Seq<(Seq<char>, Seq<char>)>) -> bool {
    forall|i: int, j: int|
        0 <= i < j < items.len() ==> (#[trigger] items[i]).0 != (#[trigger] items[j]).0
}

/// No entry after the one at index `i` has its key.
pub open spec fn is_last_of_key(items: Seq<(Seq<char>, Seq<char>)>, i: int) -> bool {
    &&& 0 <= i < items.len()
    &&& forall|j: int| i < j < items.len() ==> (#[trigger] items[j]).0 != items[i].0
}

/// A store holds exactly the keys that its entries name.
pub proof fn lemma_store_keys(items: Seq<(Seq<char>, Seq<char>)>, k: Seq<char>)
    ensures
        store_of(items).contains_key(k) <==> has_key(items, k),
    decreases items.len(),
{
    if items.len() > 0 {
        let before = items.drop_last();
        lemma_store_keys(before, k);
        if items.last().0 != k && has_key(items, k) {
            let i = choose|i: int| 0 <= i < items.len() && (#[trigger] items[i]).0 == k;
            assert(before[i].0 == k);
        }
    }
}

/// The last entry wins: a store gives each key the value of the last entry
/// that names it.
pub proof fn lemma_store_last_wins(items: Seq<(Seq<char>, Seq<char>)>, i: int)
    requires
        is_last_of_key(items, i),
    ensures
        store_of(items).contains_key(items[i].0),
        store_of(items)[items[i].0] == items[i].1,
    decreases items.len(),
{
    let before = items.drop_last();
    if i < before.len() {
        lemma_store_last_wins(before, i);
    }
}

/// The entries of one profile, by key.
pub struct Envy {
    map: StringHashMap<String>,
    keys: Vec<String>,
}

impl View for Envy {
    type V = Map<Seq<char>, Seq<char>>;

    closed spec fn view(&self) -> Map<Seq<char>, Seq<char>> {
        values_view(self.map@)
    }
}

impl Envy {
    /// The list of keys holds each key of the map once, and the store is well formed.
    #[verifier::type_invariant]
    spec fn inv(self) -> bool {
        &&& strings_view(self.keys@).no_duplicates()
        &&& strings_view(self.keys@).to_set() == self.map@.dom()
        &&& well_formed(values_view(self.map@))
    }

    /// The store of a list of entries. A later entry replaces an earlier one
    /// with the same key.
    fn from_items(items: &Vec<(String, String)>) -> (r: Envy)
        requires
            all_words(pairs_view(items@)),
        ensures
            r@ == store_of(pairs_view(items@)),
    {
        let mut map: StringHashMap<String> = StringHashMap::new();
        let mut keys: Vec<String> = Vec::new();
        let ghost all = pairs_view(items@);
        let mut i: usize = 0;
        assert(values_view(map@) =~= Map::empty());
        while i < items.len()
            invariant
                i <= items.len(),
                all == pairs_view(items@),
                all_words(all),
                values_view(map@) == store_of(all.take(i as int)),
                strings_view(keys@).no_duplicates(),
                strings_view(keys@).to_set() == map@.dom(),
                well_formed(values_view(map@)),
            decreases items.len() - i,
        {
            let key = items[i].0.clone();
            let value = items[i].1.clone();
            assert(all[i as int] == (key@, value@));
            let ghost old_map = map@;
            let ghost old_keys = strings_view(keys@);
            if !map.contains_key(key.as_str()) {
                keys.push(key.clone());
                proof {
                    assert(strings_view(keys@) =~= old_keys.push(key@));
                    old_keys.lemma_push_to_set_commute(key@);
                }
            }
            map.insert(key, value);
            proof {
                assert(all.take(i + 1).drop_last() =~= all.take(i as int));
                assert(values_view(map@) =~= values_view(old_map).insert(key@, value@));
            }
            i += 1;
        }
        assert(all.take(items.len() as int) =~= all);
        Envy { map, keys }
    }

    /// Reads the store that the bytes of a file give.
    pub fn parse(bytes: &[u8]) -> (r: Envy)
        ensures
            r@ == load_spec(bytes@),
    {
        let items = parse_items(bytes);
        proof {
            lemma_items_are_words(lines_of(bytes@));
        }
        Envy::from_items(&items)
    }

    /// Loads the debug profile.
    pub fn debug(files: &Files) -> (r: Result<Envy, OpenError>)
        ensures
            loaded(files@, DEBUG_FILE@, r),
    {
        init_hashmap(DEBUG_FILE, files)
    }

    /// Loads the release profile.
    pub fn release(files: &Files) -> (r: Result<Envy, OpenError>)
        ensures
            loaded(files@, RELEASE_FILE@, r),
    {
        init_hashmap(RELEASE_FILE, files)
    }

    /// Loads the test profile.
    pub fn test(files: &Files) -> (r: Result<Envy, OpenError>)
        ensures
            loaded(files@, TEST_FILE@, r),
    {
        init_hashmap(TEST_FILE, files)
    }

    /// Loads the profile of the mode that the program runs in.
    pub fn detect(mode: Mode, files: &Files) -> (r: Result<Envy, OpenError>)
        ensures
            loaded(files@, profile_path(mode), r),
    {
        init_hashmap(mode.path(), files)
    }

    /// Loads the file at `path`.
    pub fn try_from(path: &str, files: &Files) -> (r: Result<Envy, OpenError>)
        ensures
            loaded(files@, path@, r),
    {
        init_hashmap(path, files)
    }

    /// The value of `key`, or the empty string where the store has no such
    /// key. No value in a store is empty, so the two are never confused.
    pub fn get(&self, key: &str) -> (r: String)
        ensures
            self@.contains_key(key@) ==> r@ == self@[key@] && is_word(r@),
            !self@.contains_key(key@) ==> r@ == Seq::<char>::empty(),
    {
        proof {
            use_type_invariant(self);
        }
        match self.map.get(key) {
            Some(value) => value.clone(),
            None => String::new(),
        }
    }

    /// The number of entries.
    pub fn amount(&self) -> (r: usize)
        ensures
            r == self@.len(),
    {
        assert(self@.dom() =~= self.map@.dom());
        self.map.len()
    }

    /// The entries, each key once, in no order that is promised.
    pub fn entries(&self) -> (r: Vec<(String, String)>)
        ensures
            r.len() == self@.len(),
            distinct_keys(pairs_view(r@)),
            all_words(pairs_view(r@)),
            store_of(pairs_view(r@)) == self@,
    {
        proof {
            use_type_invariant(self);
        }
        let ghost ks = strings_view(self.keys@);
        let mut out: Vec<(String, String)> = Vec::new();
        let mut i: usize = 0;
        while i < self.keys.len()
            invariant
                i <= self.keys.len(),
                out.len() == i,
                ks == strings_view(self.keys@),
                ks.no_duplicates(),
                ks.to_set() == self.map@.dom(),
                forall|j: int|
                    0 <= j < i ==> (#[trigger] pairs_view(out@)[j]) == (ks[j], self@[ks[j]]),
            decreases self.keys.len() - i,
        {
            let ghost before = pairs_view(out@);
            let key = self.keys[i].clone();
            let value = self.get(key.as_str());
            out.push((key, value));
            assert(pairs_view(out@) =~= before.push((key@, value@)));
            i += 1;
        }
        proof {
            let pairs = pairs_view(out@);
            ks.unique_seq_to_set();
            assert(self@.dom() =~= self.map@.dom());
            assert forall|k: Seq<char>| store_of(pairs).contains_key(k) == self@.contains_key(
                k,
            ) by {
                lemma_store_keys(pairs, k);
                if self@.contains_key(k) {
                    let j = choose|j: int| 0 <= j < ks.len() && ks[j] == k;
                    assert(pairs[j].0 == k);
                }
            }
            assert forall|k: Seq<char>| store_of(pairs).contains_key(k) implies store_of(
                pairs,
            )[k] == self@[k] by {
                lemma_store_keys(pairs, k);
                let j = choose|j: int| 0 <= j < pairs.len() && (#[trigger] pairs[j]).0 == k;
                lemma_store_last_wins(pairs, j);
            }
            assert forall|j: int| 0 <= j < pairs.len() implies is_word((#[trigger] pairs[j]).0)
                && is_word(pairs[j].1) by {
                assert(ks.to_set().contains(ks[j]));
            }
        }
        out
    }
}

impl Clone for Envy {
    /// A store with the same entries.
    fn clone(&self) -> (r: Envy)
        ensures
            r@ == self@,
    {
        Envy::from_items(&self.entries())
    }
}

/// Reads the entries of the file at `path`, in the order of its lines.
pub fn read_items(path: &str, files: &Files) -> (r: Result<Vec<(String, String)>, OpenError>)
    ensures
        match r {
            Ok(items) => files@.contains_key(path@) && pairs_view(items@) == items_of(
                lines_of(files@[path@]),
            ),
            Err(e) => !files@.contains_key(path@) && e.path@ == path@,
        },
{
    match files.open(path) {
        Ok(bytes) => Ok(parse_items(bytes)),
        Err(e) => Err(e),
    }
}

/// Loads the store of the file at `path`.
pub fn init_hashmap(path: &str, files: &Files) -> (r: Result<Envy, OpenError>)
    ensures
        loaded(files@, path@, r),
{
    match read_items(path, files) {
        Ok(items) => {
            proof {
                lemma_items_are_words(lines_of(files@[path@]));
            }
            Ok(Envy::from_items(&items))
        },
        Err(e) => Err(e),
    }
}

/// The line that shows one entry: the key, ` = `, the value.
pub fn entry_line(key: &str, value: &str) -> (r: String)
    ensures
        r@ == key@ + " = "@ + value@,
{
    String::from_str(key).concat(" = ").concat(value)
}

} // verus!
