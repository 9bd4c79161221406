//! The Library sheet's list logic: one- and two-hand editions of a tune
//! share a row, a hands filter, three sort orders, and the texts around
//! the list.

use vstd::prelude::*;
use crate::pitch::{key_name_spec, PitchSpelling};
use crate::score::model::{measures_spec, sounded, Exercise, ScoreNote};
use crate::score::repertoire::RepertoirePiece;
use crate::text::{
    chars_before, chars_less, chars_of, decimal, find_at_or_after, find_from, lemma_chars_before_total, lemma_chars_before_transitive,
    lowercase, push_chars, push_nat, push_str, replace_all, replace_chars, to_lowercase, to_string,
};

verus! {

#[derive(Debug, Clone, Copy, PartialEq, Eq, Structural)]
pub enum SortOrder {
    Title,
    Difficulty,
    Length,
}

/// The picker label of a sort order.
pub open spec fn sort_label(s: SortOrder) -> Seq<char> {
    match s {
        SortOrder::Title => "Title"@,
        SortOrder::Difficulty => "Difficulty"@,
        SortOrder::Length => "Length"@,
    }
}

impl SortOrder {
    pub const ALL: [SortOrder; 3] = [SortOrder::Title, SortOrder::Difficulty, SortOrder::Length];

    /// The picker label.
    pub fn raw_value(self) -> (s: &'static str)
        ensures
            s@ == sort_label(self),
    {
        match self {
            SortOrder::Title => "Title",
            SortOrder::Difficulty => "Difficulty",
            SortOrder::Length => "Length",
        }
    }
}

#[derive(Debug, Clone, Copy, PartialEq, Eq, Structural)]
pub enum HandsFilter {
    All,
    OneHand,
    TwoHands,
}

/// The segment label of a hands filter.
pub open spec fn hands_label(h: HandsFilter) -> Seq<char> {
    match h {
        HandsFilter::All => "All"@,
        HandsFilter::OneHand => "One hand"@,
        HandsFilter::TwoHands => "Two hands"@,
    }
}

/// The filters in segment order.
pub open spec fn hands_filters() -> Seq<HandsFilter> {
    seq![HandsFilter::All, HandsFilter::OneHand, HandsFilter::TwoHands]
}

impl HandsFilter {
    pub const ALL: [HandsFilter; 3] = [HandsFilter::All, HandsFilter::OneHand, HandsFilter::TwoHands];

    /// The segment label.
    pub fn raw_value(self) -> (s: &'static str)
        ensures
            s@ == hands_label(self),
    {
        match self {
            HandsFilter::All => "All",
            HandsFilter::OneHand => "One hand",
            HandsFilter::TwoHands => "Two hands",
        }
    }
}

/// Segment index of a hands filter in `HandsFilter::ALL`; the segment at
/// that index is the filter again.
pub fn hands_index(hands: HandsFilter) -> (i: usize)
    ensures
        i < 3,
        hands_filters()[i as int] == hands,
        HandsFilter::ALL@[i as int] == hands,
{
    let all = HandsFilter::ALL;
    assert(all@ =~= hands_filters());
    match hands {
        HandsFilter::All => 0,
        HandsFilter::OneHand => 1,
        HandsFilter::TwoHands => 2,
    }
}

/// The slug suffix that marks a two-hand edition of a base song.
pub open spec fn two_hands_suffix() -> Seq<char> {
    "-two-hands"@
}

/// The base slug of a two-hand edition's slug.
pub open spec fn strip_two_hands(slug: Seq<char>) -> Option<Seq<char>> {
    let n = two_hands_suffix().len();
    if slug.len() >= n && slug.subrange(slug.len() - n, slug.len() as int) == two_hands_suffix() {
        Some(slug.subrange(0, slug.len() - n))
    } else {
        None
    }
}

/// The first piece from `k` on whose slug is `slug`.
pub open spec fn first_with_slug(ps: Seq<RepertoirePiece>, slug: Seq<char>, k: int) -> Option<int>
    decreases ps.len() - k,
{
    if k < 0 || k >= ps.len() {
        None
    } else if ps[k].slug@ == slug {
        Some(k)
    } else {
        first_with_slug(ps, slug, k + 1)
    }
}

/// A piece gets a row of its own unless it is the two-hand edition of a
/// base song that is present (then it shows on the base's row).
pub open spec fn has_own_row(ps: Seq<RepertoirePiece>, i: int) -> bool {
    match strip_two_hands(ps[i].slug@) {
        Some(base) => first_with_slug(ps, base, 0) is None,
        None => true,
    }
}

/// The pieces with a row of their own, in order, from position `k` on.
pub open spec fn row_pieces(ps: Seq<RepertoirePiece>, k: int) -> Seq<int>
    decreases ps.len() - k,
{
    if k < 0 || k >= ps.len() {
        Seq::empty()
    } else if has_own_row(ps, k) {
        seq![k] + row_pieces(ps, k + 1)
    } else {
        row_pieces(ps, k + 1)
    }
}

/// Two pieces with the same slug, title and exercise.
pub open spec fn same_piece(a: RepertoirePiece, b: RepertoirePiece) -> bool {
    &&& a.slug@ == b.slug@
    &&& a.title@ == b.title@
    &&& a.exercise.notes@ == b.exercise.notes@
    &&& a.exercise.bass_notes@ == b.exercise.bass_notes@
    &&& a.exercise.beats_per_measure == b.exercise.beats_per_measure
    &&& a.exercise.fifths == b.exercise.fifths
}

/// One library row: a song with its available editions.
#[derive(Debug, Clone)]
pub struct SongEntry {
    pub base: RepertoirePiece,
    pub two_hands: Option<RepertoirePiece>,
    /// The base edition's sounded notes, both voices.
    pub length: usize,
}

impl SongEntry {
    /// A row for `base`, with its two-hand edition if there is one.
    pub fn new(base: RepertoirePiece, two_hands: Option<RepertoirePiece>) -> (e: SongEntry)
        ensures
            same_piece(e.base, base),
            match (e.two_hands, two_hands) {
                (Some(x), Some(y)) => same_piece(x, y),
                (None, None) => true,
                _ => false,
            },
            e.length == sounded(base.exercise.notes@).len() + sounded(base.exercise.bass_notes@).len(),
    {
        let length = base.exercise.all_sounded_notes().len();
        SongEntry { base, two_hands, length }
    }

    /// Row title without the edition suffix.
    pub fn title(&self) -> (s: String)
        ensures
            s@ == base_title_spec(self.base.title@),
    {
        base_title(self.base.title.as_str())
    }
}

fn copy_notes(v: &Vec<ScoreNote>) -> (r: Vec<ScoreNote>)
    ensures
        r@ == v@,
{
    let mut r: Vec<ScoreNote> = Vec::new();
    let mut k: usize = 0;
    while k < v.len()
        invariant
            k <= v@.len(),
            r@ == v@.take(k as int),
        decreases v.len() - k,
    {
        r.push(v[k]);
        k = k + 1;
        assert(r@ =~= v@.take(k as int));
    }
    assert(v@.take(v@.len() as int) =~= v@);
    r
}

fn copy_piece(p: &RepertoirePiece) -> (q: RepertoirePiece)
    ensures
        same_piece(q, *p),
{
    RepertoirePiece {
        slug: p.slug.clone(),
        title: p.title.clone(),
        exercise: Exercise {
            notes: copy_notes(&p.exercise.notes),
            bass_notes: copy_notes(&p.exercise.bass_notes),
            beats_per_measure: p.exercise.beats_per_measure,
            fifths: p.exercise.fifths,
        },
    }
}

/// The first piece whose slug is `slug`.
fn find_piece(pieces: &[RepertoirePiece], slug: &Vec<char>) -> (r: Option<usize>)
    ensures
        match r {
            Some(i) => first_with_slug(pieces@, slug@, 0) == Some(i as int) && i < pieces@.len()
                && pieces@[i as int].slug@ == slug@,
            None => first_with_slug(pieces@, slug@, 0) is None,
        },
{
    let mut k: usize = 0;
    while k < pieces.len()
        invariant
            k <= pieces@.len(),
            first_with_slug(pieces@, slug@, 0) == first_with_slug(pieces@, slug@, k as int),
        decreases pieces.len() - k,
    {
        let s = chars_of(pieces[k].slug.as_str());
        if crate::text::chars_eq(&s, slug) {
            return Some(k);
        }
        k = k + 1;
    }
    None
}

/// The base slug of a two-hand edition's slug.
fn strip_suffix_chars(slug: &Vec<char>) -> (r: Option<Vec<char>>)
    ensures
        match r {
            Some(b) => strip_two_hands(slug@) == Some(b@),
            None => strip_two_hands(slug@) is None,
        },
{
    let suffix = chars_of("-two-hands");
    proof {
        reveal_strlit("-two-hands");
    }
    let n = suffix.len();
    if slug.len() < n {
        return None;
    }
    let tail = crate::text::slice_chars(slug, slug.len() - n, slug.len());
    if crate::text::chars_eq(&tail, &suffix) {
        Some(crate::text::slice_chars(slug, 0, slug.len() - n))
    } else {
        None
    }
}

/// Pieces paired into songs: `slug` and `slug-two-hands` share a row; a
/// two-hand edition whose base is absent stays a row of its own.
pub fn all_songs(pieces: &[RepertoirePiece]) -> (songs: Vec<SongEntry>)
    ensures
        songs@.len() == row_pieces(pieces@, 0).len(),
        forall|j: int| 0 <= j < songs@.len() ==> {
            let i = row_pieces(pieces@, 0)[j];
            &&& same_piece((#[trigger] songs@[j]).base, pieces@[i])
            &&& match first_with_slug(pieces@, pieces@[i].slug@ + two_hands_suffix(), 0) {
                Some(t) => songs@[j].two_hands matches Some(x) && same_piece(x, pieces@[t]),
                None => songs@[j].two_hands is None,
            }
        },
{
    let mut songs: Vec<SongEntry> = Vec::new();
    let mut k: usize = 0;
    let ghost all = row_pieces(pieces@, 0);
    while k < pieces.len()
        invariant
            k <= pieces@.len(),
            all == row_pieces(pieces@, 0),
            all == songs_rows(pieces@, k as int) + row_pieces(pieces@, k as int),
            songs@.len() == songs_rows(pieces@, k as int).len(),
            forall|j: int| 0 <= j < songs@.len() ==> {
                let i = all[j];
                &&& same_piece((#[trigger] songs@[j]).base, pieces@[i])
                &&& match first_with_slug(pieces@, pieces@[i].slug@ + two_hands_suffix(), 0) {
                    Some(t) => songs@[j].two_hands matches Some(x) && same_piece(x, pieces@[t]),
                    None => songs@[j].two_hands is None,
                }
            },
        decreases pieces.len() - k,
    {
        let slug = chars_of(pieces[k].slug.as_str());
        let mut own_row = true;
        if let Some(base) = strip_suffix_chars(&slug) {
            if find_piece(pieces, &base).is_some() {
                own_row = false;
            }
        }
        proof {
            assert(own_row == has_own_row(pieces@, k as int));
            lemma_rows_split(pieces@, k as int);
        }
        if own_row {
            let mut wanted = slug.clone();
            let suffix = chars_of("-two-hands");
            push_chars(&mut wanted, &suffix);
            let two_hands = match find_piece(pieces, &wanted) {
                Some(t) => Some(copy_piece(&pieces[t])),
                None => None,
            };
            let entry = SongEntry::new(copy_piece(&pieces[k]), two_hands);
            let ghost before = songs@;
            songs.push(entry);
            proof {
                assert(songs_rows(pieces@, k + 1) =~= songs_rows(pieces@, k as int).push(k as int));
                assert(all[before.len() as int] == k);
            }
        } else {
            proof {
                assert(songs_rows(pieces@, k + 1) =~= songs_rows(pieces@, k as int));
            }
        }
        k = k + 1;
    }
    proof {
        assert(row_pieces(pieces@, pieces@.len() as int) =~= Seq::<int>::empty());
        assert(all =~= songs_rows(pieces@, pieces@.len() as int));
    }
    songs
}

/// The pieces with a row of their own among the first `k`.
pub open spec fn songs_rows(ps: Seq<RepertoirePiece>, k: int) -> Seq<int>
    decreases k,
{
    if k <= 0 {
        Seq::empty()
    } else if k > ps.len() {
        songs_rows(ps, ps.len() as int)
    } else if has_own_row(ps, k - 1) {
        songs_rows(ps, k - 1).push(k - 1)
    } else {
        songs_rows(ps, k - 1)
    }
}

proof fn lemma_rows_split(ps: Seq<RepertoirePiece>, k: int)
    requires
        0 <= k < ps.len(),
    ensures
        row_pieces(ps, k) == (if has_own_row(ps, k) { seq![k] } else { Seq::empty() }) + row_pieces(ps, k + 1),
{
    if has_own_row(ps, k) {
    } else {
        assert(row_pieces(ps, k) =~= Seq::<int>::empty() + row_pieces(ps, k + 1));
    }
}

/// A row title without the edition suffix.
pub open spec fn base_title_spec(title: Seq<char>) -> Seq<char> {
    replace_all(replace_all(title, " (Two Hands)"@, Seq::empty()), ", Two Hands)"@, ")"@)
}

/// Row title without the edition suffix ("Ode to Joy (Two Hands)" pairs
/// under "Ode to Joy").
pub fn base_title(title: &str) -> (s: String)
    ensures
        s@ == base_title_spec(title@),
{
    proof {
        reveal_strlit(" (Two Hands)");
        reveal_strlit(", Two Hands)");
    }
    let t = chars_of(title);
    let first = replace_chars(&t, &chars_of(" (Two Hands)"), &Vec::new());
    let second = replace_chars(&first, &chars_of(", Two Hands)"), &chars_of(")"));
    to_string(&second)
}

/// "8 measures · 14 notes · C major · difficulty 1.2", the difficulty
/// already rendered.
pub open spec fn detail_text(measures: nat, notes: nat, fifths: int, difficulty: Seq<char>) -> Seq<char> {
    decimal(measures) + " measures · "@ + decimal(notes) + " notes · "@ + key_name_spec(fifths)
        + " · difficulty "@ + difficulty
}

/// The detail line under a row: measures, sounded notes, key and the
/// difficulty (rendered to one decimal by the caller).
pub fn piece_detail(piece: &RepertoirePiece, difficulty: &str) -> (s: String)
    requires
        piece.exercise.meter_fits(),
    ensures
        ({
            let ex = piece.exercise;
            let t = measures_spec(ex.notes@, ex.upm()).len();
            let b = measures_spec(ex.bass_notes@, ex.upm()).len();
            s@ == detail_text(
                if t >= b { t } else { b },
                sounded(ex.notes@).len() + sounded(ex.bass_notes@).len(),
                ex.fifths as int,
                difficulty@,
            )
        }),
{
    let exercise = &piece.exercise;
    let measures = exercise.measure_count();
    let notes = exercise.all_sounded_notes().len();
    let key = PitchSpelling::key_name(exercise.fifths);
    let mut out: Vec<char> = Vec::new();
    push_nat(&mut out, measures as u64);
    push_str(&mut out, " measures · ");
    push_nat(&mut out, notes as u64);
    push_str(&mut out, " notes · ");
    push_str(&mut out, key.as_str());
    push_str(&mut out, " · difficulty ");
    push_str(&mut out, difficulty);
    proof {
        assert(out@ =~= detail_text(measures as nat, notes as nat, exercise.fifths as int, difficulty@));
    }
    to_string(&out)
}

/// The centered empty-state text.
pub open spec fn empty_state_spec(search: Seq<char>) -> Seq<char> {
    if search.len() == 0 {
        "No songs match the filter."@
    } else {
        "No songs match “"@ + search + "”."@
    }
}

/// The centered empty-state text.
pub fn empty_state_text(search: &str) -> (s: String)
    ensures
        s@ == empty_state_spec(search@),
{
    let chars = chars_of(search);
    if chars.len() == 0 {
        String::from_str("No songs match the filter.")
    } else {
        let mut out: Vec<char> = Vec::new();
        push_str(&mut out, "No songs match “");
        push_chars(&mut out, &chars);
        push_str(&mut out, "”.");
        to_string(&out)
    }
}

/// The footer count: "3 of 61 songs".
pub open spec fn footer_spec(shown: nat, total: nat) -> Seq<char> {
    decimal(shown) + " of "@ + decimal(total) + " songs"@
}

/// The footer count: "{shown} of {total} songs".
pub fn footer_text(shown: usize, total: usize) -> (s: String)
    ensures
        s@ == footer_spec(shown as nat, total as nat),
{
    let mut out: Vec<char> = Vec::new();
    push_nat(&mut out, shown as u64);
    push_str(&mut out, " of ");
    push_nat(&mut out, total as u64);
    push_str(&mut out, " songs");
    to_string(&out)
}

/// The state driving the list: search text, hands filter, sort order and
/// the generations the list and the search field rebuild on.
#[derive(Debug, Clone, PartialEq, Eq)]
pub struct Filter {
    pub search: String,
    pub hands: HandsFilter,
    pub sort: SortOrder,
    /// Bumped on every filter change.
    pub list_generation: u64,
    /// Bumped when the search text is reset from outside the field.
    pub field_generation: u64,
    /// The number of rows the last list build showed, for the footer.
    pub shown: usize,
    /// Bumped by every open of the sheet so the rows' stats are rebuilt.
    pub open_generation: u64,
}

impl Filter {
    /// The filter as a sheet opens with it: no search, all hands, by title.
    pub fn new(open_generation: u64) -> (f: Filter)
        ensures
            f.search@.len() == 0,
            f.hands == HandsFilter::All,
            f.sort == SortOrder::Title,
            f.list_generation == 0,
            f.field_generation == 0,
            f.shown == 0,
            f.open_generation == open_generation,
    {
        Filter {
            search: String::new(),
            hands: HandsFilter::All,
            sort: SortOrder::Title,
            list_generation: 0,
            field_generation: 0,
            shown: 0,
            open_generation,
        }
    }

    /// A filter change: the list rebuilds.
    pub fn changed(&mut self)
        requires
            old(self).list_generation < u64::MAX,
        ensures
            final(self).list_generation == old(self).list_generation + 1,
            final(self).open_generation == old(self).open_generation,
            final(self).search@ == old(self).search@,
            final(self).hands == old(self).hands,
            final(self).sort == old(self).sort,
            final(self).field_generation == old(self).field_generation,
            final(self).shown == old(self).shown,
    {
        self.list_generation = self.list_generation + 1;
    }

    /// The list's rebuild key: a filter change or a (re)open rebuilds.
    pub fn list_key(&self) -> (k: u64)
        requires
            self.list_generation + self.open_generation <= u64::MAX,
        ensures
            k == self.list_generation + self.open_generation,
    {
        self.list_generation + self.open_generation
    }
}

// ── Filtering and sorting ──────────────────────────────────────────────

/// The row title the search and the title sort read: the base title,
/// lowercased.
pub open spec fn folded_title(e: SongEntry) -> Seq<char> {
    lowercase(base_title_spec(e.base.title@))
}

/// Whether a row passes the hands filter (every row has a one-hand
/// edition; two hands needs its two-hand edition) and the search (the
/// lowercased search occurs in the lowercased row title; an empty search
/// passes everything).
pub open spec fn song_shown(e: SongEntry, hands: HandsFilter, search: Seq<char>) -> bool {
    &&& hands == HandsFilter::TwoHands ==> e.two_hands is Some
    &&& search.len() == 0 || lowercase(search).len() == 0 || find_from(folded_title(e), lowercase(search), 0) is Some
}

/// Row `i`'s sort key comes strictly before row `j`'s: title in character
/// order, difficulty key, or length.
pub open spec fn song_key_before(all: Seq<SongEntry>, difficulty: Seq<u64>, sort: SortOrder, i: int, j: int) -> bool {
    match sort {
        SortOrder::Title => chars_before(folded_title(all[i]), folded_title(all[j])),
        SortOrder::Difficulty => difficulty[i] < difficulty[j],
        SortOrder::Length => all[i].length < all[j].length,
    }
}

/// Rows `i` and `j` have equal sort keys.
pub open spec fn song_key_same(all: Seq<SongEntry>, difficulty: Seq<u64>, sort: SortOrder, i: int, j: int) -> bool {
    match sort {
        SortOrder::Title => folded_title(all[i]) == folded_title(all[j]),
        SortOrder::Difficulty => difficulty[i] == difficulty[j],
        SortOrder::Length => all[i].length == all[j].length,
    }
}

/// Row `i` is listed before row `j`: a smaller key, or an equal key and an
/// earlier place (the sort is stable).
pub open spec fn song_before(all: Seq<SongEntry>, difficulty: Seq<u64>, sort: SortOrder, i: int, j: int) -> bool {
    song_key_before(all, difficulty, sort, i, j) || (song_key_same(all, difficulty, sort, i, j) && i < j)
}

/// `order` lists exactly the rows shown, each once, sorted.
pub open spec fn is_song_order(
    all: Seq<SongEntry>,
    difficulty: Seq<u64>,
    hands: HandsFilter,
    search: Seq<char>,
    sort: SortOrder,
    order: Seq<int>,
) -> bool {
    &&& forall|j: int| 0 <= j < order.len() ==> 0 <= #[trigger] order[j] < all.len() && song_shown(all[order[j]], hands, search)
    &&& forall|i: int| 0 <= i < all.len() && song_shown(#[trigger] all[i], hands, search) ==> order.contains(i)
    &&& forall|j: int, k: int| 0 <= j < k < order.len() ==> song_before(all, difficulty, sort, #[trigger] order[j], #[trigger] order[k])
}

/// Two rows with the same piece(s) and length.
pub open spec fn same_entry(a: SongEntry, b: SongEntry) -> bool {
    &&& same_piece(a.base, b.base)
    &&& match (a.two_hands, b.two_hands) {
        (Some(x), Some(y)) => same_piece(x, y),
        (None, None) => true,
        _ => false,
    }
    &&& a.length == b.length
}

/// Sort keys order totally and transitively.
pub proof fn lemma_song_keys(all: Seq<SongEntry>, difficulty: Seq<u64>, sort: SortOrder, a: int, b: int, c: int)
    ensures
        !song_key_before(all, difficulty, sort, b, a) ==> song_key_before(all, difficulty, sort, a, b) || song_key_same(all, difficulty, sort, a, b),
        song_key_before(all, difficulty, sort, a, b) && song_key_before(all, difficulty, sort, b, c) ==> song_key_before(all, difficulty, sort, a, c),
        song_key_before(all, difficulty, sort, a, b) && song_key_same(all, difficulty, sort, b, c) ==> song_key_before(all, difficulty, sort, a, c),
        song_key_same(all, difficulty, sort, a, b) && song_key_before(all, difficulty, sort, b, c) ==> song_key_before(all, difficulty, sort, a, c),
        song_key_same(all, difficulty, sort, a, b) && song_key_same(all, difficulty, sort, b, c) ==> song_key_same(all, difficulty, sort, a, c),
        song_key_same(all, difficulty, sort, a, b) ==> song_key_same(all, difficulty, sort, b, a),
        song_key_same(all, difficulty, sort, a, b) ==> !song_key_before(all, difficulty, sort, a, b),
{
    if sort == SortOrder::Title {
        let x = folded_title(all[a]);
        let y = folded_title(all[b]);
        let z = folded_title(all[c]);
        lemma_chars_before_total(y, x);
        lemma_chars_before_total(x, y);
        if chars_before(x, y) && chars_before(y, z) {
            lemma_chars_before_transitive(x, y, z);
        }
    }
}

/// Whether row `i`'s sort key comes strictly before row `j`'s, read from
/// the rows' lowercased titles and numeric keys.
fn key_less(sort: SortOrder, titles: &Vec<Vec<char>>, keys: &Vec<u64>, i: usize, j: usize) -> (r: bool)
    requires
        i < titles@.len(),
        j < titles@.len(),
        keys@.len() == titles@.len(),
    ensures
        r == (if sort == SortOrder::Title { chars_before(titles@[i as int]@, titles@[j as int]@) } else { keys@[i as int] < keys@[j as int] }),
{
    if sort == SortOrder::Title {
        chars_less(&titles[i], &titles[j])
    } else {
        keys[i] < keys[j]
    }
}

/// A copy of a row.
fn copy_entry(e: &SongEntry) -> (c: SongEntry)
    ensures
        same_entry(c, *e),
{
    let two_hands = match &e.two_hands {
        Some(p) => Some(copy_piece(p)),
        None => None,
    };
    SongEntry { base: copy_piece(&e.base), two_hands, length: e.length }
}

/// The rows shown for a hands filter and a search, sorted: by title
/// (lowercased, character order), by difficulty (`difficulty[i]` is row
/// `i`'s difficulty as an ordering key), or by length; rows with equal
/// keys keep their order.
pub fn filter_and_sort(all: &[SongEntry], hands: HandsFilter, search: &str, sort: SortOrder, difficulty: &[u64]) -> (r: Vec<SongEntry>)
    requires
        difficulty@.len() == all@.len(),
    ensures
        exists|order: Seq<int>| {
            &&& is_song_order(all@, difficulty@, hands, search@, sort, order)
            &&& #[trigger] order.len() == r@.len()
            &&& forall|j: int| 0 <= j < r@.len() ==> same_entry(#[trigger] r@[j], all@[order[j]])
        },
{
    let needle = chars_of(to_lowercase(search).as_str());
    let searching = chars_of(search).len() > 0 && needle.len() > 0;
    let mut titles: Vec<Vec<char>> = Vec::new();
    let mut keys: Vec<u64> = Vec::new();
    let mut k: usize = 0;
    while k < all.len()
        invariant
            k <= all@.len(),
            difficulty@.len() == all@.len(),
            titles@.len() == k,
            keys@.len() == k,
            forall|q: int| 0 <= q < k ==> (#[trigger] titles@[q])@ == folded_title(all@[q]),
            forall|q: int| 0 <= q < k ==> #[trigger] keys@[q] == (if sort == SortOrder::Length { all@[q].length as u64 } else { difficulty@[q] }),
        decreases all.len() - k,
    {
        let title = all[k].title();
        titles.push(chars_of(to_lowercase(title.as_str()).as_str()));
        let key: u64 = if sort == SortOrder::Length { all[k].length as u64 } else { difficulty[k] };
        keys.push(key);
        k = k + 1;
    }
    let ghost a = all@;
    let ghost d = difficulty@;
    let mut order: Vec<usize> = Vec::new();
    let mut i: usize = 0;
    while i < all.len()
        invariant
            i <= all@.len(),
            a == all@,
            d == difficulty@,
            difficulty@.len() == all@.len(),
            titles@.len() == all@.len(),
            keys@.len() == all@.len(),
            needle@ == lowercase(search@),
            searching == (search@.len() > 0 && lowercase(search@).len() > 0),
            forall|q: int| 0 <= q < all@.len() ==> (#[trigger] titles@[q])@ == folded_title(all@[q]),
            forall|q: int| 0 <= q < all@.len() ==> #[trigger] keys@[q] == (if sort == SortOrder::Length { all@[q].length as u64 } else { difficulty@[q] }),
            forall|j: int| 0 <= j < order@.len() ==> #[trigger] order@[j] < i && song_shown(a[order@[j] as int], hands, search@),
            forall|q: int| 0 <= q < i && song_shown(#[trigger] a[q], hands, search@) ==> order@.contains(q as usize),
            forall|j: int, l: int| 0 <= j < l < order@.len() ==> song_before(a, d, sort, #[trigger] order@[j] as int, #[trigger] order@[l] as int),
        decreases all.len() - i,
    {
        let hands_ok = match hands {
            HandsFilter::TwoHands => all[i].two_hands.is_some(),
            _ => true,
        };
        let found = if searching { find_at_or_after(&titles[i], &needle, 0).is_some() } else { true };
        if hands_ok && found {
            let mut p: usize = 0;
            while p < order.len() && !key_less(sort, &titles, &keys, i, order[p])
                invariant
                    p <= order@.len(),
                    i < all@.len(),
                    a == all@,
                    d == difficulty@,
                    titles@.len() == all@.len(),
                    keys@.len() == all@.len(),
                    forall|q: int| 0 <= q < all@.len() ==> (#[trigger] titles@[q])@ == folded_title(all@[q]),
                    forall|q: int| 0 <= q < all@.len() ==> #[trigger] keys@[q] == (if sort == SortOrder::Length { all@[q].length as u64 } else { difficulty@[q] }),
                    forall|j: int| 0 <= j < order@.len() ==> #[trigger] order@[j] < i,
                    forall|q: int| 0 <= q < p ==> !song_key_before(a, d, sort, i as int, #[trigger] order@[q] as int),
                decreases order.len() - p,
            {
                p = p + 1;
            }
            let ghost before = order@;
            proof {
                assert(p < before.len() ==> song_key_before(a, d, sort, i as int, before[p as int] as int));
            }
            order.insert(p, i);
            proof {
                let o = order@;
                assert forall|j: int, l: int| 0 <= j < l < o.len() implies song_before(a, d, sort, #[trigger] o[j] as int, #[trigger] o[l] as int) by {
                    let x = o[j] as int;
                    let y = o[l] as int;
                    if l < p {
                        assert(o[j] == before[j] && o[l] == before[l]);
                    } else if l == p {
                        assert(o[j] == before[j]);
                        lemma_song_keys(a, d, sort, x, i as int, i as int);
                    } else if j < p {
                        assert(o[j] == before[j] && o[l] == before[l - 1]);
                    } else if j == p {
                        assert(o[l] == before[l - 1]);
                        let w = before[p as int] as int;
                        lemma_song_keys(a, d, sort, i as int, w, y);
                        if l - 1 > p {
                            assert(song_before(a, d, sort, w, y));
                        }
                    } else {
                        assert(o[j] == before[j - 1] && o[l] == before[l - 1]);
                    }
                }
                assert forall|q: int| 0 <= q < i + 1 && song_shown(#[trigger] a[q], hands, search@) implies o.contains(q as usize) by {
                    if q < i {
                        assert(before.contains(q as usize));
                        let w = choose|w: int| 0 <= w < before.len() && before[w] == q as usize;
                        if w < p { assert(o[w] == before[w]); } else { assert(o[w + 1] == before[w]); }
                    } else {
                        assert(o[p as int] == i);
                    }
                }
                assert forall|j: int| 0 <= j < o.len() implies #[trigger] o[j] < i + 1 && song_shown(a[o[j] as int], hands, search@) by {
                    if j < p { assert(o[j] == before[j]); } else if j > p { assert(o[j] == before[j - 1]); }
                }
            }
        } else {
            proof {
                assert(!song_shown(a[i as int], hands, search@));
            }
        }
        i = i + 1;
    }
    let mut r: Vec<SongEntry> = Vec::new();
    let mut j: usize = 0;
    while j < order.len()
        invariant
            j <= order@.len(),
            r@.len() == j,
            a == all@,
            forall|q: int| 0 <= q < order@.len() ==> #[trigger] order@[q] < all@.len(),
            forall|q: int| 0 <= q < j ==> same_entry(#[trigger] r@[q], a[order@[q] as int]),
        decreases order.len() - j,
    {
        r.push(copy_entry(&all[order[j]]));
        j = j + 1;
    }
    let ghost ord = order@.map_values(|x: usize| x as int);
    proof {
        assert forall|q: int| 0 <= q < a.len() && song_shown(#[trigger] a[q], hands, search@) implies ord.contains(q) by {
            assert(order@.contains(q as usize));
            let w = choose|w: int| 0 <= w < order@.len() && order@[w] == q as usize;
            assert(ord[w] == q);
        }
        assert(is_song_order(a, d, hands, search@, sort, ord));
        assert(ord.len() == r@.len());
    }
    r
}

} // verus!
