//! Songs and the tables of songs keyed by their identifiers.
use vstd::prelude::*;

verus! {

/// One song of a playlist, as the library records it.
#[derive(Debug, PartialEq, Eq)]
pub struct Music {
    pub id: String,
    pub name: String,
    pub pic_url: String,
    pub singer: String,
    pub album: String,
    pub donw_url: String,
    pub file_type: String,
}

/// The text of each field of a song.
pub struct MusicView {
    pub id: Seq<char>,
    pub name: Seq<char>,
    pub pic_url: Seq<char>,
    pub singer: Seq<char>,
    pub album: Seq<char>,
    pub donw_url: Seq<char>,
    pub file_type: Seq<char>,
}

impl View for Music {
    type V = MusicView;

    open spec fn view(&self) -> MusicView {
        MusicView {
            id: self.id@,
            name: self.name@,
            pic_url: self.pic_url@,
            singer: self.singer@,
            album: self.album@,
            donw_url: self.donw_url@,
            file_type: self.file_type@,
        }
    }
}

impl Music {
    /// A copy of this song.
    pub fn duplicate(&self) -> (r: Music)
        ensures
            r == *self,
            r@ == self@,
    {
        Music {
            id: self.id.clone(),
            name: self.name.clone(),
            pic_url: self.pic_url.clone(),
            singer: self.singer.clone(),
            album: self.album.clone(),
            donw_url: self.donw_url.clone(),
            file_type: self.file_type.clone(),
        }
    }
}

/// The table that a sequence of key and song pairs describes, a later pair
/// for a key taking the place of an earlier one.
pub open spec fn table_of(s: Seq<(Seq<char>, MusicView)>) -> Map<Seq<char>, MusicView>
    decreases s.len(),
{
    if s.len() == 0 {
        Map::empty()
    } else {
        table_of(s.drop_last()).insert(s.last().0, s.last().1)
    }
}

/// Whether no key occurs twice among the pairs.
pub open spec fn keys_distinct(s: Seq<(Seq<char>, MusicView)>) -> bool {
    forall|i: int, j: int| 0 <= i < j < s.len() ==> (#[trigger] s[i]).0 != (#[trigger] s[j]).0
}

/// A table of songs keyed by song identifier, which keeps its keys in the
/// order in which they were first inserted.
pub struct MusicMap {
    entries: Vec<(String, Music)>,
}

impl MusicMap {
    /// The pairs of the table, as text, in order.
    pub closed spec fn pairs(&self) -> Seq<(Seq<char>, MusicView)> {
        self.entries@.map_values(|e: (String, Music)| (e.0@, e.1@))
    }

    /// The keys of the table in the order in which they were first inserted.
    pub closed spec fn key_order(&self) -> Seq<Seq<char>> {
        self.pairs().map_values(|p: (Seq<char>, MusicView)| p.0)
    }

    #[verifier::type_invariant]
    closed spec fn well_formed(&self) -> bool {
        keys_distinct(self.pairs())
    }

    /// An empty table.
    pub fn new() -> (m: MusicMap)
        ensures
            m@ == Map::<Seq<char>, MusicView>::empty(),
            m.key_order() == Seq::<Seq<char>>::empty(),
    {
        let m = MusicMap { entries: Vec::new() };
        assert(m.pairs() =~= Seq::<(Seq<char>, MusicView)>::empty());
        assert(m.key_order() =~= Seq::<Seq<char>>::empty());
        m
    }

    /// The number of songs in the table.
    pub fn len(&self) -> (n: usize)
        ensures
            n == self@.len(),
    {
        proof {
            use_type_invariant(self);
            lemma_key_order(self.pairs());
        }
        self.entries.len()
    }

    /// Whether the table holds no song.
    pub fn is_empty(&self) -> (b: bool)
        ensures
            b == (self@.len() == 0),
    {
        self.len() == 0
    }

    /// The position of `key` among the entries, if it is there.
    fn position(&self, key: &str) -> (r: Option<usize>)
        ensures
            r matches Some(i) ==> i < self.pairs().len() && self.pairs()[i as int].0 == key@,
            r is None ==> forall|i: int| 0 <= i < self.pairs().len() ==> self.pairs()[i].0 != key@,
    {
        let mut i: usize = 0;
        while i < self.entries.len()
            invariant
                i <= self.entries.len(),
                self.pairs().len() == self.entries.len(),
                forall|j: int| 0 <= j < i ==> self.pairs()[j].0 != key@,
            decreases self.entries.len() - i,
        {
            if str_eq(self.entries[i].0.as_str(), key) {
                return Some(i);
            }
            i = i + 1;
        }
        None
    }

    /// Whether the table holds a song under `key`.
    pub fn contains_key(&self, key: &str) -> (b: bool)
        ensures
            b == self@.dom().contains(key@),
    {
        proof {
            use_type_invariant(self);
            lemma_table_of(self.pairs());
        }
        self.position(key).is_some()
    }

    /// The song held under `key`, if any.
    pub fn get(&self, key: &str) -> (r: Option<&Music>)
        ensures
            r is Some == self@.dom().contains(key@),
            r matches Some(m) ==> m@ == self@[key@],
    {
        proof {
            use_type_invariant(self);
            lemma_table_of(self.pairs());
        }
        match self.position(key) {
            Some(i) => Some(&self.entries[i].1),
            None => None,
        }
    }

    /// Puts `value` under `key`, in place of any song held there before; a new
    /// key goes last in the key order.
    pub fn insert(&mut self, key: String, value: Music)
        ensures
            final(self)@ == old(self)@.insert(key@, value@),
            old(self)@.dom().contains(key@) ==> final(self).key_order() == old(self).key_order(),
            !old(self)@.dom().contains(key@) ==> final(self).key_order() == old(self).key_order().push(
                key@,
            ),
    {
        proof {
            use_type_invariant(&*self);
            lemma_table_of(self.pairs());
        }
        let ghost old_pairs = self.pairs();
        let ghost pair = (key@, value@);
        match self.position(key.as_str()) {
            Some(i) => {
                let mut entries: Vec<(String, Music)> = Vec::new();
                std::mem::swap(&mut entries, &mut self.entries);
                entries.set(i, (key, value));
                proof {
                    let new_pairs = entries@.map_values(|e: (String, Music)| (e.0@, e.1@));
                    assert(new_pairs =~= old_pairs.update(i as int, pair));
                    lemma_table_of_update(old_pairs, i as int, pair.1);
                    assert(keys_distinct(new_pairs));
                    assert(new_pairs.map_values(|p: (Seq<char>, MusicView)| p.0) =~= old_pairs.map_values(
                        |p: (Seq<char>, MusicView)| p.0,
                    ));
                }
                self.entries = entries;
            },
            None => {
                let mut entries: Vec<(String, Music)> = Vec::new();
                std::mem::swap(&mut entries, &mut self.entries);
                entries.push((key, value));
                proof {
                    let new_pairs = entries@.map_values(|e: (String, Music)| (e.0@, e.1@));
                    assert(new_pairs =~= old_pairs.push(pair));
                    assert(new_pairs.drop_last() =~= old_pairs);
                    assert(keys_distinct(new_pairs));
                    assert(new_pairs.map_values(|p: (Seq<char>, MusicView)| p.0) =~= old_pairs.map_values(
                        |p: (Seq<char>, MusicView)| p.0,
                    ).push(pair.0));
                }
                self.entries = entries;
            },
        }
    }

    /// The keys, in the key order: each key of the table once.
    pub fn keys(&self) -> (r: Vec<String>)
        ensures
            r@.map_values(|k: String| k@) == self.key_order(),
            self.key_order().no_duplicates(),
            self.key_order().len() == self@.len(),
            forall|k: Seq<char>| self@.dom().contains(k) <==> self.key_order().contains(k),
    {
        proof {
            use_type_invariant(self);
            lemma_key_order(self.pairs());
        }
        let mut r: Vec<String> = Vec::new();
        let mut i: usize = 0;
        while i < self.entries.len()
            invariant
                i <= self.entries.len(),
                self.pairs().len() == self.entries.len(),
                r@.map_values(|k: String| k@) =~= self.key_order().take(i as int),
            decreases self.entries.len() - i,
        {
            let ghost before = r@.map_values(|k: String| k@);
            let k = self.entries[i].0.clone();
            assert(self.pairs()[i as int].0 == self.entries@[i as int].0@);
            assert(self.key_order()[i as int] == self.pairs()[i as int].0);
            r.push(k);
            assert(r@.map_values(|k: String| k@) =~= before.push(self.key_order()[i as int]));
            assert(self.key_order().take(i + 1) =~= self.key_order().take(i as int).push(
                self.key_order()[i as int],
            ));
            i = i + 1;
        }
        assert(self.key_order().take(i as int) =~= self.key_order());
        r
    }

    /// The songs, in the key order of the keys they are held under.
    pub fn values(&self) -> (r: Vec<Music>)
        ensures
            r@.len() == self.key_order().len(),
            forall|i: int| 0 <= i < r@.len() ==> #[trigger] r@[i]@ == self@[self.key_order()[i]],
            self.key_order().no_duplicates(),
            forall|k: Seq<char>| self@.dom().contains(k) <==> self.key_order().contains(k),
    {
        proof {
            use_type_invariant(self);
            lemma_table_of(self.pairs());
            lemma_key_order(self.pairs());
        }
        let mut r: Vec<Music> = Vec::new();
        let mut i: usize = 0;
        while i < self.entries.len()
            invariant
                i <= self.entries.len(),
                self.pairs().len() == self.entries.len(),
                keys_distinct(self.pairs()),
                forall|j: int|
                    0 <= j < self.pairs().len() ==> self@[self.pairs()[j].0] == #[trigger] self.pairs()[j].1,
                r@.len() == i,
                forall|j: int| 0 <= j < i ==> #[trigger] r@[j]@ == self@[self.key_order()[j]],
            decreases self.entries.len() - i,
        {
            assert(self.pairs()[i as int] == (self.entries@[i as int].0@, self.entries@[i as int].1@));
            assert(self.key_order()[i as int] == self.pairs()[i as int].0);
            assert(self@[self.pairs()[i as int].0] == self.pairs()[i as int].1);
            r.push(self.entries[i].1.duplicate());
            i = i + 1;
        }
        r
    }
}

impl View for MusicMap {
    type V = Map<Seq<char>, MusicView>;

    closed spec fn view(&self) -> Map<Seq<char>, MusicView> {
        table_of(self.pairs())
    }
}

/// With distinct keys, the keys come in a fixed order, each once, and they are
/// exactly the keys of the table.
pub proof fn lemma_key_order(s: Seq<(Seq<char>, MusicView)>)
    requires
        keys_distinct(s),
    ensures
        s.map_values(|p: (Seq<char>, MusicView)| p.0).no_duplicates(),
        s.map_values(|p: (Seq<char>, MusicView)| p.0).len() == table_of(s).len(),
        forall|k: Seq<char>|
            table_of(s).dom().contains(k) <==> s.map_values(|p: (Seq<char>, MusicView)| p.0).contains(
                k,
            ),
{
    lemma_table_of(s);
    let ko = s.map_values(|p: (Seq<char>, MusicView)| p.0);
    assert forall|i: int, j: int| 0 <= i < ko.len() && 0 <= j < ko.len() && i != j implies ko[i]
        != ko[j] by {
        if i < j {
            assert(s[i].0 != s[j].0);
        } else {
            assert(s[j].0 != s[i].0);
        }
    }
    assert forall|k: Seq<char>| table_of(s).dom().contains(k) <==> ko.contains(k) by {
        if table_of(s).dom().contains(k) {
            let i = choose|i: int| 0 <= i < s.len() && s[i].0 == k;
            assert(ko[i] == k);
        }
        if ko.contains(k) {
            let i = choose|i: int| 0 <= i < ko.len() && ko[i] == k;
            assert(s[i].0 == k);
        }
    }
}

/// Whether two strings are equal.
pub fn str_eq(a: &str, b: &str) -> (r: bool)
    ensures
        r == (a@ == b@),
{
    let x = crate::text::chars_of(a);
    let y = crate::text::chars_of(b);
    crate::text::chars_eq(&x, &y)
}

/// With distinct keys, the table holds exactly the keys of the pairs, each with
/// the song of its pair, and has as many songs as there are pairs.
pub proof fn lemma_table_of(s: Seq<(Seq<char>, MusicView)>)
    requires
        keys_distinct(s),
    ensures
        forall|k: Seq<char>| #[trigger]
            table_of(s).dom().contains(k) <==> exists|i: int| 0 <= i < s.len() && s[i].0 == k,
        forall|i: int| 0 <= i < s.len() ==> table_of(s)[#[trigger] s[i].0] == s[i].1,
        table_of(s).dom().finite(),
        table_of(s).len() == s.len(),
    decreases s.len(),
{
    if s.len() > 0 {
        let p = s.drop_last();
        assert(keys_distinct(p)) by {
            assert forall|i: int, j: int| 0 <= i < j < p.len() implies (#[trigger] p[i]).0 != (
            #[trigger] p[j]).0 by {
                assert(p[i] == s[i] && p[j] == s[j]);
            }
        }
        lemma_table_of(p);
        assert(!table_of(p).dom().contains(s.last().0)) by {
            if table_of(p).dom().contains(s.last().0) {
                let i = choose|i: int| 0 <= i < p.len() && p[i].0 == s.last().0;
                assert(s[i] == p[i]);
                assert(s[i].0 != s[s.len() - 1].0);
            }
        }
        assert forall|k: Seq<char>| #[trigger]
            table_of(s).dom().contains(k) <==> exists|i: int| 0 <= i < s.len() && s[i].0 == k by {
            if table_of(s).dom().contains(k) && k != s.last().0 {
                let i = choose|i: int| 0 <= i < p.len() && p[i].0 == k;
                assert(s[i] == p[i]);
            }
            if exists|i: int| 0 <= i < s.len() && s[i].0 == k {
                let i = choose|i: int| 0 <= i < s.len() && s[i].0 == k;
                if i < s.len() - 1 {
                    assert(s[i] == p[i]);
                }
            }
        }
        assert forall|i: int| 0 <= i < s.len() implies table_of(s)[#[trigger] s[i].0] == s[i].1 by {
            if i < s.len() - 1 {
                assert(s[i] == p[i]);
                assert(s[i].0 != s[s.len() - 1].0);
            }
        }
    }
}

/// Changing the song of one pair changes only the song under its key.
pub proof fn lemma_table_of_update(s: Seq<(Seq<char>, MusicView)>, i: int, v: MusicView)
    requires
        keys_distinct(s),
        0 <= i < s.len(),
    ensures
        table_of(s.update(i, (s[i].0, v))) == table_of(s).insert(s[i].0, v),
        keys_distinct(s.update(i, (s[i].0, v))),
{
    let t = s.update(i, (s[i].0, v));
    assert(keys_distinct(t)) by {
        assert forall|a: int, b: int| 0 <= a < b < t.len() implies (#[trigger] t[a]).0 != (
        #[trigger] t[b]).0 by {
            assert(t[a].0 == s[a].0 && t[b].0 == s[b].0);
        }
    }
    lemma_table_of(s);
    lemma_table_of(t);
    assert forall|k: Seq<char>| #[trigger] table_of(t).dom().contains(k) <==> table_of(s).insert(
        s[i].0,
        v,
    ).dom().contains(k) by {
        if table_of(t).dom().contains(k) {
            let j = choose|j: int| 0 <= j < t.len() && t[j].0 == k;
            assert(s[j].0 == k);
        }
        if table_of(s).dom().contains(k) {
            let j = choose|j: int| 0 <= j < s.len() && s[j].0 == k;
            assert(t[j].0 == k);
        }
        if k == s[i].0 {
            assert(t[i].0 == k);
        }
    }
    assert forall|k: Seq<char>| #[trigger] table_of(t).dom().contains(k) implies table_of(t)[k]
        == table_of(s).insert(s[i].0, v)[k] by {
        let j = choose|j: int| 0 <= j < t.len() && t[j].0 == k;
        assert(table_of(t)[t[j].0] == t[j].1);
        if j != i {
            assert(table_of(s)[s[j].0] == s[j].1);
        }
    }
    assert(table_of(t) =~= table_of(s).insert(s[i].0, v));
}


// ---------------------------------------------------------------------------
// Comparing and building tables
// ---------------------------------------------------------------------------

/// The songs held under a key of exactly one of the two tables, each with the
/// song of the table that holds it.
pub open spec fn symmetric_difference(
    a: Map<Seq<char>, MusicView>,
    b: Map<Seq<char>, MusicView>,
) -> Map<Seq<char>, MusicView> {
    Map::new(
        |k: Seq<char>| a.dom().contains(k) != b.dom().contains(k),
        |k: Seq<char>|
            if a.dom().contains(k) {
                a[k]
            } else {
                b[k]
            },
    )
}

/// The songs held under a key of exactly one of `map1` and `map2`: those of
/// `map1` whose key `map2` lacks, then those of `map2` whose key `map1` lacks.
pub fn diff_hashmap(map1: &MusicMap, map2: &MusicMap) -> (m: MusicMap)
    ensures
        m@ == symmetric_difference(map1@, map2@),
{
    let mut m = MusicMap::new();
    let keys1 = map1.keys();
    let ghost order1 = map1.key_order();
    let mut i: usize = 0;
    while i < keys1.len()
        invariant
            i <= keys1.len(),
            keys1@.map_values(|k: String| k@) == order1,
            order1.no_duplicates(),
            forall|k: Seq<char>| map1@.dom().contains(k) <==> order1.contains(k),
            m@ =~= Map::new(
                |k: Seq<char>| order1.take(i as int).contains(k) && !map2@.dom().contains(k),
                |k: Seq<char>| map1@[k],
            ),
        decreases keys1.len() - i,
    {
        let key = &keys1[i];
        assert(order1[i as int] == key@);
        assert(order1.take(i + 1) =~= order1.take(i as int).push(key@));
        assert(order1.contains(key@));
        if !map2.contains_key(key.as_str()) {
            assert(map1@.dom().contains(key@));
            let song = match map1.get(key.as_str()) {
                Some(song) => song.duplicate(),
                None => {
                    assert(false);
                    Music::placeholder()
                },
            };
            m.insert(key.clone(), song);
        }
        proof {
            lemma_take_next_contains(order1, i as int);
        }
        i = i + 1;
    }
    assert(order1.take(i as int) =~= order1);
    let keys2 = map2.keys();
    let ghost order2 = map2.key_order();
    let mut j: usize = 0;
    while j < keys2.len()
        invariant
            j <= keys2.len(),
            keys2@.map_values(|k: String| k@) == order2,
            forall|k: Seq<char>| map1@.dom().contains(k) <==> order1.contains(k),
            forall|k: Seq<char>| map2@.dom().contains(k) <==> order2.contains(k),
            m@ =~= Map::new(
                |k: Seq<char>|
                    (map1@.dom().contains(k) && !map2@.dom().contains(k)) || (order2.take(
                        j as int,
                    ).contains(k) && !map1@.dom().contains(k)),
                |k: Seq<char>|
                    if map1@.dom().contains(k) {
                        map1@[k]
                    } else {
                        map2@[k]
                    },
            ),
        decreases keys2.len() - j,
    {
        let key = &keys2[j];
        assert(order2[j as int] == key@);
        assert(order2.take(j + 1) =~= order2.take(j as int).push(key@));
        assert(order2.contains(key@));
        if !map1.contains_key(key.as_str()) {
            assert(map2@.dom().contains(key@));
            let song = match map2.get(key.as_str()) {
                Some(song) => song.duplicate(),
                None => {
                    assert(false);
                    Music::placeholder()
                },
            };
            m.insert(key.clone(), song);
        }
        proof {
            lemma_take_next_contains(order2, j as int);
        }
        j = j + 1;
    }
    assert(order2.take(j as int) =~= order2);
    assert(m@ =~= symmetric_difference(map1@, map2@));
    m
}

impl Music {
    /// A song whose fields are all empty.
    pub fn placeholder() -> (r: Music)
        ensures
            r@.id.len() == 0,
            r@.name.len() == 0,
            r@.pic_url.len() == 0,
            r@.singer.len() == 0,
            r@.album.len() == 0,
            r@.donw_url.len() == 0,
            r@.file_type.len() == 0,
    {
        Music {
            id: String::new(),
            name: String::new(),
            pic_url: String::new(),
            singer: String::new(),
            album: String::new(),
            donw_url: String::new(),
            file_type: String::new(),
        }
    }
}

/// The table that holds each song of `s` under its identifier, a later song
/// with the same identifier taking the place of an earlier one.
pub open spec fn indexed(s: Seq<MusicView>) -> Map<Seq<char>, MusicView>
    decreases s.len(),
{
    if s.len() == 0 {
        Map::empty()
    } else {
        indexed(s.drop_last()).insert(s.last().id, s.last())
    }
}

/// The songs of `list` keyed by their identifiers; of two songs with the same
/// identifier the later one is kept.
pub fn index_by_id(list: Vec<Music>) -> (m: MusicMap)
    ensures
        m@ == indexed(list@.map_values(|x: Music| x@)),
{
    let ghost views = list@.map_values(|x: Music| x@);
    let mut m = MusicMap::new();
    let mut i: usize = 0;
    while i < list.len()
        invariant
            i <= list.len(),
            views == list@.map_values(|x: Music| x@),
            m@ == indexed(views.take(i as int)),
        decreases list.len() - i,
    {
        assert(views.take(i + 1).drop_last() =~= views.take(i as int));
        assert(views.take(i + 1).last() == list@[i as int]@);
        let song = list[i].duplicate();
        m.insert(list[i].id.clone(), song);
        i = i + 1;
    }
    assert(views.take(i as int) =~= views);
    m
}

/// Taking one more key of a key order adds exactly that key.
pub proof fn lemma_take_next_contains(order: Seq<Seq<char>>, i: int)
    requires
        0 <= i < order.len(),
    ensures
        forall|k: Seq<char>|
            order.take(i + 1).contains(k) <==> (order.take(i).contains(k) || k == order[i]),
{
    let prefix = order.take(i);
    let next = order.take(i + 1);
    assert forall|k: Seq<char>| next.contains(k) <==> (prefix.contains(k) || k == order[i]) by {
        if next.contains(k) {
            let t = choose|t: int| 0 <= t < next.len() && next[t] == k;
            if t < i {
                assert(prefix[t] == k);
            }
        }
        if prefix.contains(k) {
            let t = choose|t: int| 0 <= t < prefix.len() && prefix[t] == k;
            assert(next[t] == k);
        }
        if k == order[i] {
            assert(next[i] == k);
        }
    }
}

// ---------------------------------------------------------------------------
// Songs held under their own identifiers
// ---------------------------------------------------------------------------

/// Every song of the table is held under its own identifier.
pub open spec fn keyed_by_id(m: Map<Seq<char>, MusicView>) -> bool {
    forall|k: Seq<char>| #[trigger] m.dom().contains(k) ==> m[k].id == k
}

/// Indexing songs by identifier holds each under its own identifier, and
/// exactly the identifiers of the songs.
pub proof fn lemma_indexed_keyed(s: Seq<MusicView>)
    ensures
        keyed_by_id(indexed(s)),
        forall|k: Seq<char>|
            #[trigger] indexed(s).dom().contains(k) <==> exists|i: int|
                0 <= i < s.len() && s[i].id == k,
    decreases s.len(),
{
    if s.len() > 0 {
        let p = s.drop_last();
        lemma_indexed_keyed(p);
        assert forall|k: Seq<char>|
            #[trigger] indexed(s).dom().contains(k) <==> exists|i: int|
                0 <= i < s.len() && s[i].id == k by {
            if exists|i: int| 0 <= i < s.len() && s[i].id == k {
                let i = choose|i: int| 0 <= i < s.len() && s[i].id == k;
                if i < s.len() - 1 {
                    assert(p[i] == s[i]);
                }
            }
            if indexed(p).dom().contains(k) {
                let i = choose|i: int| 0 <= i < p.len() && p[i].id == k;
                assert(s[i] == p[i]);
            }
        }
    }
}

/// The difference of two tables that hold their songs under their own
/// identifiers does so too.
pub proof fn lemma_diff_keyed(a: Map<Seq<char>, MusicView>, b: Map<Seq<char>, MusicView>)
    requires
        keyed_by_id(a),
        keyed_by_id(b),
    ensures
        keyed_by_id(symmetric_difference(a, b)),
{
}

/// Putting a song under its own identifier keeps every song under its own.
pub proof fn lemma_insert_keyed(m: Map<Seq<char>, MusicView>, song: MusicView)
    requires
        keyed_by_id(m),
    ensures
        keyed_by_id(m.insert(song.id, song)),
{
}

/// Listing a table's songs in its key order and indexing the list by
/// identifier gives the table back, when every song is held under its own
/// identifier: what the info file records is what is read back from it.
pub proof fn lemma_indexed_listing(
    m: Map<Seq<char>, MusicView>,
    order: Seq<Seq<char>>,
    data: Seq<MusicView>,
)
    requires
        keyed_by_id(m),
        order.no_duplicates(),
        forall|k: Seq<char>| m.dom().contains(k) <==> order.contains(k),
        data.len() == order.len(),
        forall|i: int| 0 <= i < data.len() ==> #[trigger] data[i] == m[order[i]],
    ensures
        indexed(data) == m,
{
    lemma_indexed_listing_prefix(m, order, data, data.len() as int);
    assert(data.take(data.len() as int) =~= data);
    assert(order.take(order.len() as int) =~= order);
    assert(indexed(data) =~= m);
}

/// The first `n` songs of the listing index to the table's songs under the
/// first `n` keys.
proof fn lemma_indexed_listing_prefix(
    m: Map<Seq<char>, MusicView>,
    order: Seq<Seq<char>>,
    data: Seq<MusicView>,
    n: int,
)
    requires
        keyed_by_id(m),
        forall|k: Seq<char>| m.dom().contains(k) <==> order.contains(k),
        data.len() == order.len(),
        forall|i: int| 0 <= i < data.len() ==> #[trigger] data[i] == m[order[i]],
        0 <= n <= data.len(),
    ensures
        forall|k: Seq<char>|
            #[trigger] indexed(data.take(n)).dom().contains(k) <==> order.take(n).contains(k),
        forall|k: Seq<char>|
            #[trigger] indexed(data.take(n)).dom().contains(k) ==> indexed(data.take(n))[k] == m[k],
    decreases n,
{
    if n > 0 {
        lemma_indexed_listing_prefix(m, order, data, n - 1);
        lemma_take_next_contains(order, n - 1);
        assert(data.take(n).drop_last() =~= data.take(n - 1));
        assert(data.take(n).last() == data[n - 1]);
        assert(order.contains(order[n - 1]));
        assert(m.dom().contains(order[n - 1]));
        assert(data[n - 1] == m[order[n - 1]]);
        assert(data[n - 1].id == order[n - 1]);
        let prev = indexed(data.take(n - 1));
        assert(indexed(data.take(n)) == prev.insert(order[n - 1], m[order[n - 1]]));
        assert forall|k: Seq<char>| #[trigger]
            indexed(data.take(n)).dom().contains(k) <==> order.take(n).contains(k) by {
            assert(order.take(n).contains(k) <==> (order.take(n - 1).contains(k) || k == order[n
                - 1]));
            assert(prev.dom().contains(k) <==> order.take(n - 1).contains(k));
        }
        assert forall|k: Seq<char>| #[trigger]
            indexed(data.take(n)).dom().contains(k) implies indexed(data.take(n))[k] == m[k] by {
            if k != order[n - 1] {
                assert(prev.dom().contains(k));
            }
        }
    } else {
        assert(order.take(0) =~= Seq::<Seq<char>>::empty());
        assert(data.take(0) =~= Seq::<MusicView>::empty());
    }
}

// ---------------------------------------------------------------------------
// Laws of `diff_hashmap`
// ---------------------------------------------------------------------------

/// The difference does not depend on the order of the two tables.
pub proof fn lemma_diff_commutes(a: Map<Seq<char>, MusicView>, b: Map<Seq<char>, MusicView>)
    ensures
        symmetric_difference(a, b) == symmetric_difference(b, a),
{
    assert(symmetric_difference(a, b) =~= symmetric_difference(b, a));
}

/// A table differs from itself in nothing.
pub proof fn lemma_diff_self_empty(a: Map<Seq<char>, MusicView>)
    ensures
        symmetric_difference(a, a) == Map::<Seq<char>, MusicView>::empty(),
{
    assert(symmetric_difference(a, a) =~= Map::<Seq<char>, MusicView>::empty());
}

/// Against an empty table, the difference is the table itself.
pub proof fn lemma_diff_empty(a: Map<Seq<char>, MusicView>)
    ensures
        symmetric_difference(a, Map::empty()) == a,
{
    assert(symmetric_difference(a, Map::empty()) =~= a);
}

/// When every song already fetched belongs to the playlist, the songs still
/// to fetch are the playlist's songs that were not fetched yet.
pub proof fn lemma_diff_of_subset(all: Map<Seq<char>, MusicView>, done: Map<Seq<char>, MusicView>)
    requires
        done.dom().subset_of(all.dom()),
    ensures
        symmetric_difference(all, done) == all.remove_keys(done.dom()),
{
    assert(symmetric_difference(all, done) =~= all.remove_keys(done.dom()));
}

/// Every identifier of the list is a key of the index, and the index holds
/// the last song of the list with that identifier.
pub proof fn lemma_indexed_last_wins(s: Seq<MusicView>, i: int)
    requires
        0 <= i < s.len(),
        forall|j: int| i < j < s.len() ==> s[j].id != s[i].id,
    ensures
        indexed(s).dom().contains(s[i].id),
        indexed(s)[s[i].id] == s[i],
    decreases s.len(),
{
    if i < s.len() - 1 {
        lemma_indexed_last_wins(s.drop_last(), i);
    }
}

} // verus!
