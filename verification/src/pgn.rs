//! Decoding of PGN game texts: the header tags and the numbered move pairs.
//!
//! The decoder is lenient. It picks out of the text whatever has the shape
//! of a tag or of a move pair and passes over the rest in silence, so that a
//! game without tags, or without moves, is no error.

use vstd::prelude::*;

verus! {

/// The shape of a header tag: a key made of word characters, white space,
/// and a value between double quotes that holds no double quote.
pub const HEADER_PATTERN: &'static str = "\\[(\\w+)\\s+\"([^\"]+)\"\\]";

/// The shape of a move pair: a number, a dot, white space, and two moves
/// with white space between them.
pub const MOVES_PATTERN: &'static str = "(\\d+)\\.\\s+([^\\s]+)\\s+([^\\s]+)";

/// Every match of a pattern in a text, from left to right and without
/// overlap, each as the list of its capture groups. Group 0 is the match as a
/// whole; a group that took no part in the match is `None`. The whole is
/// `None` where the pattern is refused.
pub uninterp spec fn captures(pattern: Seq<char>, text: Seq<char>) -> Option<
    Seq<Seq<Option<Seq<char>>>>,
>;

/// Compiles the pattern with `regex::Regex::new` and collects what
/// `Regex::captures_iter` yields on the text: for each match the text of each
/// group that `Captures::iter` hands out. The contract claims only that the
/// outcome depends on the pattern and the text and on nothing else.
#[verifier::external_body]
fn find_captures(pattern: &str, text: &str) -> (found: Option<Vec<Vec<Option<String>>>>)
    ensures
        found.deep_view() == captures(pattern@, text@),
{
    match regex::Regex::new(pattern) {
        Ok(re) => Some(
            re.captures_iter(text).map(
                |caps| caps.iter().map(|group| group.map(|m| m.as_str().to_string())).collect(),
            ).collect(),
        ),
        Err(_) => None,
    }
}

/// The matches of a pattern in a text; none where the pattern is refused.
pub open spec fn occurrences(pattern: Seq<char>, text: Seq<char>) -> Seq<Seq<Option<Seq<char>>>> {
    match captures(pattern, text) {
        Some(all) => all,
        None => Seq::empty(),
    }
}

/// The text of group `i` of a match, if the match has such a group and the
/// group took part.
pub open spec fn group(m: Seq<Option<Seq<char>>>, i: int) -> Option<Seq<char>> {
    if 0 <= i < m.len() {
        m[i]
    } else {
        None
    }
}

/// The tag that a header match gives: the key from group 1, the value from
/// group 2.
pub open spec fn tag_of(m: Seq<Option<Seq<char>>>) -> Option<(Seq<char>, Seq<char>)> {
    match (group(m, 1), group(m, 2)) {
        (Some(key), Some(value)) => Some((key, value)),
        _ => None,
    }
}

/// The move pair that a move match gives: white's move from group 2, black's
/// from group 3.
pub open spec fn pair_of(m: Seq<Option<Seq<char>>>) -> Option<(Seq<char>, Seq<char>)> {
    match (group(m, 2), group(m, 3)) {
        (Some(white), Some(black)) => Some((white, black)),
        _ => None,
    }
}

/// The tags that the header matches give. Where a key comes more than once,
/// its last value stands.
pub open spec fn tags_of(found: Seq<Seq<Option<Seq<char>>>>) -> Map<Seq<char>, Seq<char>>
    decreases found.len(),
{
    if found.len() == 0 {
        Map::empty()
    } else {
        let earlier = tags_of(found.drop_last());
        match tag_of(found.last()) {
            Some((key, value)) => earlier.insert(key, value),
            None => earlier,
        }
    }
}

/// The move pairs that the move matches give, in the order of the matches.
pub open spec fn moves_of(found: Seq<Seq<Option<Seq<char>>>>) -> Seq<(Seq<char>, Seq<char>)> {
    found.filter_map(|m: Seq<Option<Seq<char>>>| pair_of(m))
}

/// Of the matches that give a tag with one key, the last decides the value.
pub proof fn lemma_last_tag_stands(
    found: Seq<Seq<Option<Seq<char>>>>,
    i: int,
    key: Seq<char>,
    value: Seq<char>,
)
    requires
        0 <= i < found.len(),
        tag_of(found[i]) == Some((key, value)),
        forall|j: int|
            i < j < found.len() ==> (#[trigger] tag_of(found[j]) matches Some(later) ==> later.0
                != key),
    ensures
        tags_of(found).contains_key(key),
        tags_of(found)[key] == value,
    decreases found.len(),
{
    if i < found.len() - 1 {
        let front = found.drop_last();
        assert forall|j: int| i < j < front.len() implies (#[trigger] tag_of(
            front[j],
        ) matches Some(later) ==> later.0 != key) by {
            assert(front[j] == found[j]);
        }
        assert(front[i] == found[i]);
        lemma_last_tag_stands(front, i, key, value);
        assert(found.last() == found[found.len() - 1]);
    }
}

/// A key has a tag exactly when some match gives one for it.
pub proof fn lemma_tags_come_from_matches(found: Seq<Seq<Option<Seq<char>>>>, key: Seq<char>)
    ensures
        tags_of(found).contains_key(key) <==> exists|i: int|
            0 <= i < found.len() && (#[trigger] tag_of(found[i]) matches Some(tag) && tag.0
                == key),
    decreases found.len(),
{
    if found.len() > 0 {
        let front = found.drop_last();
        lemma_tags_come_from_matches(front, key);
        if tags_of(found).contains_key(key) {
            if tags_of(front).contains_key(key) {
                let i = choose|i: int|
                    0 <= i < front.len() && (#[trigger] tag_of(front[i]) matches Some(tag)
                        && tag.0 == key);
                assert(found[i] == front[i]);
            } else {
                assert(found[found.len() - 1] == found.last());
            }
        }
        if exists|i: int|
            0 <= i < found.len() && (#[trigger] tag_of(found[i]) matches Some(tag) && tag.0
                == key) {
            let i = choose|i: int|
                0 <= i < found.len() && (#[trigger] tag_of(found[i]) matches Some(tag) && tag.0
                    == key);
            if i < found.len() - 1 {
                assert(front[i] == found[i]);
            }
        }
    }
}

/// Where nothing matches there are no tags and no moves.
pub proof fn lemma_no_matches_give_an_empty_game()
    ensures
        tags_of(Seq::empty()) == Map::<Seq<char>, Seq<char>>::empty(),
        moves_of(Seq::empty()) == Seq::<(Seq<char>, Seq<char>)>::empty(),
{
}

/// Whether no key stands twice among the pairs.
pub open spec fn distinct_keys(pairs: Seq<(Seq<char>, Seq<char>)>) -> bool {
    forall|i: int, j: int| 0 <= i < j < pairs.len() ==> pairs[i].0 != pairs[j].0
}

/// The mapping that a list of pairs with distinct keys writes down.
pub open spec fn mapping(pairs: Seq<(Seq<char>, Seq<char>)>) -> Map<Seq<char>, Seq<char>> {
    Map::new(
        |k: Seq<char>| exists|i: int| 0 <= i < pairs.len() && pairs[i].0 == k,
        |k: Seq<char>| pairs[choose|i: int| 0 <= i < pairs.len() && pairs[i].0 == k].1,
    )
}

/// Each pair of a list with distinct keys is an entry of its mapping.
pub proof fn lemma_mapping_holds_each_pair(pairs: Seq<(Seq<char>, Seq<char>)>, i: int)
    requires
        distinct_keys(pairs),
        0 <= i < pairs.len(),
    ensures
        mapping(pairs).contains_key(pairs[i].0),
        mapping(pairs)[pairs[i].0] == pairs[i].1,
{
    let k = pairs[i].0;
    let j = choose|j: int| 0 <= j < pairs.len() && pairs[j].0 == k;
    assert(i == j);
}

/// The header tags of a game: each key once, with its value.
#[derive(Debug)]
pub struct Tags {
    entries: Vec<(String, String)>,
}

impl View for Tags {
    type V = Map<Seq<char>, Seq<char>>;

    closed spec fn view(&self) -> Map<Seq<char>, Seq<char>> {
        mapping(self.entries.deep_view())
    }
}

impl Tags {
    #[verifier::type_invariant]
    spec fn keys_are_distinct(&self) -> bool {
        distinct_keys(self.entries.deep_view())
    }

    /// No tags.
    pub fn new() -> (tags: Tags)
        ensures
            tags@ == Map::<Seq<char>, Seq<char>>::empty(),
    {
        let tags = Tags { entries: Vec::new() };
        assert(tags@ =~= Map::<Seq<char>, Seq<char>>::empty());
        tags
    }

    /// The tags one by one, each key once.
    pub fn entries(&self) -> (pairs: &Vec<(String, String)>)
        ensures
            distinct_keys(pairs.deep_view()),
            mapping(pairs.deep_view()) == self@,
    {
        proof {
            use_type_invariant(self);
        }
        &self.entries
    }

    /// The number of tags.
    pub fn len(&self) -> (n: usize)
        ensures
            n == self@.len(),
            self@.dom().finite(),
    {
        proof {
            use_type_invariant(self);
            lemma_mapping_size(self.entries.deep_view());
        }
        self.entries.len()
    }

    /// The value of the tag `key`, if the game has that tag.
    pub fn get(&self, key: &str) -> (value: Option<&String>)
        ensures
            match value {
                Some(v) => self@.contains_key(key@) && self@[key@] == v@,
                None => !self@.contains_key(key@),
            },
    {
        proof {
            use_type_invariant(self);
        }
        let wanted = key.to_owned();
        let ghost pairs = self.entries.deep_view();
        for i in 0..self.entries.len()
            invariant
                wanted@ == key@,
                pairs == self.entries.deep_view(),
                distinct_keys(pairs),
                forall|j: int| 0 <= j < i ==> pairs[j].0 != key@,
        {
            assert(pairs[i as int] == (self.entries[i as int].0@, self.entries[i as int].1@));
            if self.entries[i].0 == wanted {
                proof {
                    lemma_mapping_holds_each_pair(pairs, i as int);
                }
                return Some(&self.entries[i].1);
            }
        }
        None
    }

    /// Sets the tag `key` to `value`, in place of the value it had, if any.
    pub fn insert(&mut self, key: String, value: String)
        ensures
            final(self)@ == old(self)@.insert(key@, value@),
    {
        proof {
            use_type_invariant(&*self);
        }
        // The entries are taken out, changed and put back as a whole.
        let mut taken = Tags { entries: Vec::new() };
        core::mem::swap(self, &mut taken);
        let mut entries = taken.entries;
        let ghost pairs = entries.deep_view();
        let n = entries.len();
        let mut i: usize = 0;
        let mut at: Option<usize> = None;
        while i < n && at.is_none()
            invariant
                n == entries.len(),
                i <= n,
                pairs == entries.deep_view(),
                forall|j: int| 0 <= j < i && at != Some(j as usize) ==> pairs[j].0 != key@,
                at matches Some(j) ==> j < n && pairs[j as int].0 == key@,
            decreases n - i,
        {
            assert(pairs[i as int] == (entries[i as int].0@, entries[i as int].1@));
            if entries[i].0 == key {
                at = Some(i);
            }
            i += 1;
        }
        match at {
            Some(j) => {
                entries.set(j, (key, value));
                proof {
                    assert(entries.deep_view() =~= pairs.update(j as int, (key@, value@)));
                    lemma_mapping_after_update(pairs, j as int, value@);
                }
            },
            None => {
                entries.push((key, value));
                proof {
                    assert(entries.deep_view() =~= pairs.push((key@, value@)));
                    lemma_mapping_after_push(pairs, key@, value@);
                }
            },
        }
        *self = Tags { entries };
    }
}

/// A move pair: white's move, then black's.
#[derive(Debug, PartialEq, Eq)]
pub struct Lance(pub String, pub String);

impl DeepView for Lance {
    type V = (Seq<char>, Seq<char>);

    open spec fn deep_view(&self) -> (Seq<char>, Seq<char>) {
        (self.0@, self.1@)
    }
}

/// A decoded game: its header tags and its move pairs in the order of play.
#[derive(Debug)]
pub struct Game {
    pub fields: Tags,
    pub lances: Vec<Lance>,
}

fn group_text(m: &Vec<Option<String>>, i: usize) -> (text: Option<String>)
    ensures
        text.deep_view() == group(m.deep_view(), i as int),
{
    if i < m.len() {
        assert(m.deep_view()[i as int] == m[i as int].deep_view());
        match &m[i] {
            Some(text) => Some(text.clone()),
            None => None,
        }
    } else {
        None
    }
}

impl Game {
    /// Builds a game from the matches of the header pattern and those of the
    /// move pattern. A match that lacks one of the groups it is read for
    /// gives nothing.
    pub fn from_captures(
        headers: &Vec<Vec<Option<String>>>,
        moves: &Vec<Vec<Option<String>>>,
    ) -> (game: Game)
        ensures
            game.fields@ == tags_of(headers.deep_view()),
            game.lances.deep_view() == moves_of(moves.deep_view()),
    {
        let mut fields = Tags::new();
        let mut lances: Vec<Lance> = Vec::new();

        let ghost found = headers.deep_view();
        assert(found.take(0) =~= Seq::<Seq<Option<Seq<char>>>>::empty());
        for i in 0..headers.len()
            invariant
                found == headers.deep_view(),
                fields@ == tags_of(found.take(i as int)),
        {
            proof {
                assert(found.take(i + 1).drop_last() =~= found.take(i as int));
                assert(found.take(i + 1).last() == headers[i as int].deep_view());
            }
            let key = group_text(&headers[i], 1);
            let value = group_text(&headers[i], 2);
            match (key, value) {
                (Some(key), Some(value)) => {
                    fields.insert(key, value);
                },
                _ => {},
            }
        }
        assert(found.take(headers.len() as int) =~= found);

        let ghost played = moves.deep_view();
        let ghost pick = |m: Seq<Option<Seq<char>>>| pair_of(m);
        assert(played.take(0) =~= Seq::<Seq<Option<Seq<char>>>>::empty());
        assert(lances.deep_view() =~= played.take(0).filter_map(pick));
        for i in 0..moves.len()
            invariant
                played == moves.deep_view(),
                pick == (|m: Seq<Option<Seq<char>>>| pair_of(m)),
                lances.deep_view() == played.take(i as int).filter_map(pick),
        {
            proof {
                played.lemma_filter_map_take_succ(pick, i as int);
                assert(played[i as int] == moves[i as int].deep_view());
            }
            let white_move = group_text(&moves[i], 2);
            let black_move = group_text(&moves[i], 3);
            let ghost before = lances.deep_view();
            match (white_move, black_move) {
                (Some(white_move), Some(black_move)) => {
                    lances.push(Lance(white_move, black_move));
                    assert(lances.deep_view() =~= before + seq![(white_move@, black_move@)]);
                },
                _ => {
                    assert(before + Seq::<(Seq<char>, Seq<char>)>::empty() =~= before);
                },
            }
        }
        assert(played.take(moves.len() as int) =~= played);

        Game { fields, lances }
    }

    /// Decodes a game text. Every tag of the text is read, wherever it
    /// stands, and every numbered pair of moves; a move number that is not
    /// followed by two moves gives no pair.
    pub fn parse(text: &str) -> (game: Game)
        ensures
            game.fields@ == tags_of(occurrences(HEADER_PATTERN@, text@)),
            game.lances.deep_view() == moves_of(occurrences(MOVES_PATTERN@, text@)),
    {
        let headers = match find_captures(HEADER_PATTERN, text) {
            Some(found) => found,
            None => Vec::new(),
        };
        let moves = match find_captures(MOVES_PATTERN, text) {
            Some(found) => found,
            None => Vec::new(),
        };
        assert(headers.deep_view() =~= occurrences(HEADER_PATTERN@, text@));
        assert(moves.deep_view() =~= occurrences(MOVES_PATTERN@, text@));
        Game::from_captures(&headers, &moves)
    }
}

proof fn lemma_mapping_size(pairs: Seq<(Seq<char>, Seq<char>)>)
    requires
        distinct_keys(pairs),
    ensures
        mapping(pairs).dom().finite(),
        mapping(pairs).len() == pairs.len(),
    decreases pairs.len(),
{
    if pairs.len() == 0 {
        assert(mapping(pairs).dom() =~= Set::<Seq<char>>::empty());
    } else {
        let front = pairs.drop_last();
        let last = pairs.last();
        lemma_mapping_size(front);
        assert(front.push(last) =~= pairs);
        lemma_mapping_after_push(front, last.0, last.1);
        assert(!mapping(front).contains_key(last.0));
    }
}

proof fn lemma_mapping_after_update(pairs: Seq<(Seq<char>, Seq<char>)>, i: int, value: Seq<char>)
    requires
        distinct_keys(pairs),
        0 <= i < pairs.len(),
    ensures
        distinct_keys(pairs.update(i, (pairs[i].0, value))),
        mapping(pairs.update(i, (pairs[i].0, value))) == mapping(pairs).insert(pairs[i].0, value),
{
    let key = pairs[i].0;
    let after = pairs.update(i, (key, value));
    assert(distinct_keys(after)) by {
        assert forall|a: int, b: int| 0 <= a < b < after.len() implies after[a].0 != after[b].0 by {
            assert(after[a].0 == pairs[a].0 && after[b].0 == pairs[b].0);
        }
    }
    assert forall|k: Seq<char>| mapping(after).contains_key(k) == mapping(pairs).insert(
        key,
        value,
    ).contains_key(k) by {
        if mapping(after).contains_key(k) {
            let j = choose|j: int| 0 <= j < after.len() && after[j].0 == k;
            assert(pairs[j].0 == k);
        }
        if mapping(pairs).contains_key(k) {
            let j = choose|j: int| 0 <= j < pairs.len() && pairs[j].0 == k;
            assert(after[j].0 == k);
        }
        if k == key {
            assert(after[i].0 == k);
        }
    }
    assert forall|k: Seq<char>| mapping(after).contains_key(k) implies mapping(after)[k]
        == mapping(pairs).insert(key, value)[k] by {
        let j = choose|j: int| 0 <= j < after.len() && after[j].0 == k;
        lemma_mapping_holds_each_pair(after, j);
        if j != i {
            assert(pairs[j].0 == k);
            lemma_mapping_holds_each_pair(pairs, j);
        }
    }
    assert(mapping(after) =~= mapping(pairs).insert(key, value));
}

proof fn lemma_mapping_after_push(
    pairs: Seq<(Seq<char>, Seq<char>)>,
    key: Seq<char>,
    value: Seq<char>,
)
    requires
        distinct_keys(pairs),
        forall|j: int| 0 <= j < pairs.len() ==> pairs[j].0 != key,
    ensures
        distinct_keys(pairs.push((key, value))),
        !mapping(pairs).contains_key(key),
        mapping(pairs.push((key, value))) == mapping(pairs).insert(key, value),
{
    let after = pairs.push((key, value));
    assert forall|k: Seq<char>| mapping(after).contains_key(k) == mapping(pairs).insert(
        key,
        value,
    ).contains_key(k) by {
        if mapping(after).contains_key(k) {
            let j = choose|j: int| 0 <= j < after.len() && after[j].0 == k;
            if j < pairs.len() {
                assert(pairs[j].0 == k);
            }
        }
        if mapping(pairs).contains_key(k) {
            let j = choose|j: int| 0 <= j < pairs.len() && pairs[j].0 == k;
            assert(after[j].0 == k);
        }
        if k == key {
            assert(after[pairs.len() as int].0 == k);
        }
    }
    assert forall|k: Seq<char>| mapping(after).contains_key(k) implies mapping(after)[k]
        == mapping(pairs).insert(key, value)[k] by {
        let j = choose|j: int| 0 <= j < after.len() && after[j].0 == k;
        lemma_mapping_holds_each_pair(after, j);
        if j < pairs.len() {
            assert(pairs[j].0 == k);
            lemma_mapping_holds_each_pair(pairs, j);
        }
    }
    assert(mapping(after) =~= mapping(pairs).insert(key, value));
}

} // verus!
