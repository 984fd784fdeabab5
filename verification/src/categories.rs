use vstd::prelude::*;

pub mod check;
pub mod score;

verus! {

use crate::categories::check::count_face;
use crate::categories::check::has_n_of_a_kind;
use crate::categories::check::is_full_house;
use crate::categories::check::is_n_straight;
use crate::categories::check::lemma_count_face_bounds;
use crate::categories::score::lemma_sum_values_bounds;
use crate::categories::score::sum_values;
use crate::die::Die;
use crate::dicerow::DiceRow;
use crate::dicerow::lemma_row_valid;
use crate::dicerow::row_valid;

/// What a scoring attempt reports back.
#[derive(Clone, Copy, Debug)]
pub enum ScoreResult {
    /// The category was committed now; `None` means it did not qualify and
    /// was consumed for zero.
    Score(Option<u16>),
    /// The category had been committed before; nothing changed.
    AlreadyScored,
}

/// Whether a category is still open, or what it was committed for.
#[derive(Clone, Copy, Debug)]
pub enum ScoreStatus {
    Unscored,
    /// `None` records an attempt that did not qualify: zero, slot consumed.
    Scored(Option<u16>),
}

/// The scoring rule a category follows.
#[derive(Clone, Copy, Debug)]
pub enum CategoryKind {
    /// Counts one fixed face; scores count times face value.
    Upper(Die),
    /// Qualifies when some face appears at least this often; scores the sum
    /// of all five dice.
    NOfAKind(u8),
    /// One triple and one pair; fixed 25.
    FullHouse,
    /// Longest run of consecutive faces exactly four; fixed 30.
    SmallStraight,
    /// Longest run of consecutive faces exactly five; fixed 40.
    LargeStraight,
    /// All five dice alike; fixed 50.
    Yahtzee,
    /// Qualifies always; scores the sum of all five dice.
    Chance,
}

/// Does the row qualify for a category of this kind?
pub open spec fn qualifies(kind: CategoryKind, v: Seq<int>) -> bool {
    match kind {
        CategoryKind::Upper(_) => true,
        CategoryKind::NOfAKind(n) => has_n_of_a_kind(v, n as int),
        CategoryKind::FullHouse => is_full_house(v),
        CategoryKind::SmallStraight => is_n_straight(v, 4),
        CategoryKind::LargeStraight => is_n_straight(v, 5),
        CategoryKind::Yahtzee => has_n_of_a_kind(v, 5),
        CategoryKind::Chance => true,
    }
}

/// The points a qualifying row earns in a category of this kind.
pub open spec fn points(kind: CategoryKind, v: Seq<int>) -> int {
    match kind {
        CategoryKind::Upper(d) => count_face(v, d.value()) * d.value(),
        CategoryKind::NOfAKind(_) => sum_values(v),
        CategoryKind::FullHouse => 25,
        CategoryKind::SmallStraight => 30,
        CategoryKind::LargeStraight => 40,
        CategoryKind::Yahtzee => 50,
        CategoryKind::Chance => sum_values(v),
    }
}

/// What a first-time scoring of the row records: the earned points, or
/// `None` when the row does not qualify.
pub open spec fn score_outcome(kind: CategoryKind, v: Seq<int>) -> Option<u16> {
    if qualifies(kind, v) {
        Some(points(kind, v) as u16)
    } else {
        None
    }
}

/// No category is ever worth more than 50 points.
pub proof fn lemma_points_bounds(kind: CategoryKind, v: Seq<int>)
    requires
        row_valid(v),
    ensures
        0 <= points(kind, v) <= 50,
{
    match kind {
        CategoryKind::Upper(d) => {
            lemma_count_face_bounds(v, d.value());
            crate::die::lemma_die_value_in_range(d);
        },
        CategoryKind::NOfAKind(_) => {
            lemma_sum_values_bounds(v);
        },
        CategoryKind::Chance => {
            lemma_sum_values_bounds(v);
        },
        _ => {},
    }
}

/// The category as it stands after one scoring attempt against the row:
/// an open category is committed, a committed one is left alone.
pub open spec fn category_after_score(c: Category, v: Seq<int>) -> Category {
    match c.status {
        ScoreStatus::Unscored => Category { status: ScoreStatus::Scored(score_outcome(c.kind, v)), ..c },
        ScoreStatus::Scored(_) => c,
    }
}

/// What one scoring attempt against the row reports.
pub open spec fn category_score_result(c: Category, v: Seq<int>) -> ScoreResult {
    match c.status {
        ScoreStatus::Unscored => ScoreResult::Score(score_outcome(c.kind, v)),
        ScoreStatus::Scored(_) => ScoreResult::AlreadyScored,
    }
}

/// A named scoring category: its rule and its one-shot commitment status.
pub struct Category {
    pub name: String,
    pub status: ScoreStatus,
    pub kind: CategoryKind,
}

impl Category {
    pub fn new(name: String, kind: CategoryKind) -> (c: Category)
        ensures
            c.name == name,
            c.status is Unscored,
            c.kind == kind,
    {
        Category { name, status: ScoreStatus::Unscored, kind }
    }

    /// Commits the category against the row, once: a first call records the
    /// outcome; every later call reports `AlreadyScored` and changes nothing.
    pub fn score(&mut self, row: &DiceRow) -> (r: ScoreResult)
        ensures
            *final(self) == category_after_score(*old(self), row@),
            r == category_score_result(*old(self), row@),
    {
        match self.status {
            ScoreStatus::Scored(_) => ScoreResult::AlreadyScored,
            ScoreStatus::Unscored => {
                proof {
                    lemma_row_valid(row);
                    lemma_points_bounds(self.kind, row@);
                }
                let q = match self.kind {
                    CategoryKind::Upper(_) => true,
                    CategoryKind::NOfAKind(n) => check::n_of_a_kind(row, n),
                    CategoryKind::FullHouse => check::full_house(row),
                    CategoryKind::SmallStraight => check::n_straight(row, 4),
                    CategoryKind::LargeStraight => check::n_straight(row, 5),
                    CategoryKind::Yahtzee => check::n_of_a_kind(row, 5),
                    CategoryKind::Chance => true,
                };
                let outcome: Option<u16> = if q {
                    let p: u16 = match self.kind {
                        CategoryKind::Upper(d) => score::upper(row, &d),
                        CategoryKind::NOfAKind(_) => score::total(row),
                        CategoryKind::FullHouse => 25,
                        CategoryKind::SmallStraight => 30,
                        CategoryKind::LargeStraight => 40,
                        CategoryKind::Yahtzee => 50,
                        CategoryKind::Chance => score::total(row),
                    };
                    Some(p)
                } else {
                    None
                };
                self.status = ScoreStatus::Scored(outcome);
                ScoreResult::Score(outcome)
            },
        }
    }
}

#[verifier::external_type_specification]
#[verifier::external_body]
#[verifier::reject_recursive_types(K)]
#[verifier::reject_recursive_types(V)]
#[verifier::reject_recursive_types(S)]
pub struct ExIndexMap<K, V, S>(indexmap::IndexMap<K, V, S>);

/// The index from category name to display position.
pub type NameIndex = indexmap::IndexMap<String, usize>;

/// What the name index holds: the entries of the map, keyed by the name's
/// characters.
pub uninterp spec fn index_map_entries(m: NameIndex) -> Map<Seq<char>, usize>;

/// Relies on indexmap's `IndexMap::new`: it creates an empty map.
#[verifier::external_body]
fn index_map_new() -> (m: NameIndex)
    ensures
        index_map_entries(m) =~= Map::empty(),
{
    indexmap::IndexMap::new()
}

/// Relies on indexmap's `IndexMap::insert`: the value is stored under the
/// key; every other entry stays.
#[verifier::external_body]
fn index_map_insert(m: &mut NameIndex, key: String, value: usize)
    ensures
        index_map_entries(*final(m)) == index_map_entries(*old(m)).insert(key@, value),
{
    m.insert(key, value);
}

/// Relies on indexmap's `IndexMap::get`: it returns the value stored under
/// the key, or nothing when the key is absent.
#[verifier::external_body]
fn index_map_get(m: &NameIndex, key: &str) -> (r: Option<usize>)
    ensures
        r == if index_map_entries(*m).dom().contains(key@) {
            Some(index_map_entries(*m)[key@])
        } else {
            None::<usize>
        },
{
    m.get(key).copied()
}

/// Scoring a category twice: once a category has been scored, any later
/// attempt, against whatever row, reports `AlreadyScored` and leaves the
/// category exactly as the first attempt left it.
pub proof fn lemma_score_twice_is_noop(c: Category, v: Seq<int>, w: Seq<int>)
    ensures
        category_after_score(category_after_score(c, v), w) == category_after_score(c, v),
        category_score_result(category_after_score(c, v), w) == ScoreResult::AlreadyScored,
{
}

/// The name of the category at a display position: six upper categories
/// keyed to the faces, then the seven lower ones.
pub open spec fn cat_name(i: int) -> Seq<char> {
    if i == 0 {
        "1"@
    } else if i == 1 {
        "2"@
    } else if i == 2 {
        "3"@
    } else if i == 3 {
        "4"@
    } else if i == 4 {
        "5"@
    } else if i == 5 {
        "6"@
    } else if i == 6 {
        "3-kind"@
    } else if i == 7 {
        "4-kind"@
    } else if i == 8 {
        "house"@
    } else if i == 9 {
        "s-straight"@
    } else if i == 10 {
        "l-straight"@
    } else if i == 11 {
        "yahtzee"@
    } else {
        "chance"@
    }
}

/// The scoring rule of the category at a display position.
pub open spec fn cat_kind(i: int) -> CategoryKind {
    if i == 0 {
        CategoryKind::Upper(Die::One)
    } else if i == 1 {
        CategoryKind::Upper(Die::Two)
    } else if i == 2 {
        CategoryKind::Upper(Die::Three)
    } else if i == 3 {
        CategoryKind::Upper(Die::Four)
    } else if i == 4 {
        CategoryKind::Upper(Die::Five)
    } else if i == 5 {
        CategoryKind::Upper(Die::Six)
    } else if i == 6 {
        CategoryKind::NOfAKind(3)
    } else if i == 7 {
        CategoryKind::NOfAKind(4)
    } else if i == 8 {
        CategoryKind::FullHouse
    } else if i == 9 {
        CategoryKind::SmallStraight
    } else if i == 10 {
        CategoryKind::LargeStraight
    } else if i == 11 {
        CategoryKind::Yahtzee
    } else {
        CategoryKind::Chance
    }
}

/// No two display positions share a name.
pub proof fn lemma_cat_names_distinct()
    ensures
        forall|i: int, j: int|
            0 <= i < 13 && 0 <= j < 13 && i != j ==> cat_name(i) != cat_name(j),
{
    reveal_strlit("1");
    reveal_strlit("2");
    reveal_strlit("3");
    reveal_strlit("4");
    reveal_strlit("5");
    reveal_strlit("6");
    reveal_strlit("3-kind");
    reveal_strlit("4-kind");
    reveal_strlit("house");
    reveal_strlit("s-straight");
    reveal_strlit("l-straight");
    reveal_strlit("yahtzee");
    reveal_strlit("chance");
    // every pair differs in length or in its first character
    assert(cat_name(0).len() == 1 && cat_name(0)[0] == '1');
    assert(cat_name(1).len() == 1 && cat_name(1)[0] == '2');
    assert(cat_name(2).len() == 1 && cat_name(2)[0] == '3');
    assert(cat_name(3).len() == 1 && cat_name(3)[0] == '4');
    assert(cat_name(4).len() == 1 && cat_name(4)[0] == '5');
    assert(cat_name(5).len() == 1 && cat_name(5)[0] == '6');
    assert(cat_name(6).len() == 6 && cat_name(6)[0] == '3');
    assert(cat_name(7).len() == 6 && cat_name(7)[0] == '4');
    assert(cat_name(8).len() == 5 && cat_name(8)[0] == 'h');
    assert(cat_name(9).len() == 10 && cat_name(9)[0] == 's');
    assert(cat_name(10).len() == 10 && cat_name(10)[0] == 'l');
    assert(cat_name(11).len() == 7 && cat_name(11)[0] == 'y');
    assert(cat_name(12).len() == 6 && cat_name(12)[0] == 'c');
}

/// How many categories of the board have been committed.
pub open spec fn num_scored(s: Seq<ScoreStatus>) -> int
    decreases s.len(),
{
    if s.len() == 0 {
        0
    } else {
        num_scored(s.drop_last()) + if s.last() matches ScoreStatus::Scored(_) {
            1int
        } else {
            0int
        }
    }
}

pub proof fn lemma_num_scored_bounds(s: Seq<ScoreStatus>)
    ensures
        0 <= num_scored(s) <= s.len(),
    decreases s.len(),
{
    if s.len() > 0 {
        lemma_num_scored_bounds(s.drop_last());
    }
}

/// Committing one open category raises the committed count by one.
pub proof fn lemma_num_scored_update(s: Seq<ScoreStatus>, i: int, x: ScoreStatus)
    requires
        0 <= i < s.len(),
        s[i] is Unscored,
        x matches ScoreStatus::Scored(_),
    ensures
        num_scored(s.update(i, x)) == num_scored(s) + 1,
    decreases s.len(),
{
    if i == s.len() - 1 {
        assert(s.update(i, x).drop_last() =~= s.drop_last());
    } else {
        assert(s.update(i, x).drop_last() =~= s.drop_last().update(i, x));
        lemma_num_scored_update(s.drop_last(), i, x);
    }
}

/// The board: the thirteen categories in display order, with a name index
/// for lookup by the player's typed category name.
pub struct Categories {
    cats: Vec<Category>,
    index: NameIndex,
}

impl Categories {
    /// The commitment status of each category, in display order.
    pub closed spec fn statuses(&self) -> Seq<ScoreStatus> {
        self.cats@.map_values(|c: Category| c.status)
    }

    /// The board is well formed: thirteen categories with the fixed names
    /// and rules, and the index finds exactly them.
    pub closed spec fn wf(&self) -> bool {
        &&& self.cats@.len() == 13
        &&& forall|i: int|
            0 <= i < 13 ==> (#[trigger] self.cats@[i]).name@ == cat_name(i) && self.cats@[i].kind
                == cat_kind(i)
        &&& forall|i: int|
            0 <= i < 13 ==> index_map_entries(self.index).dom().contains(#[trigger] cat_name(i))
                && index_map_entries(self.index)[cat_name(i)] == i as usize
        &&& forall|n: Seq<char>|
            #[trigger] index_map_entries(self.index).dom().contains(n) ==> exists|i: int|
                0 <= i < 13 && n == cat_name(i)
    }

    /// A well-formed board always lists exactly thirteen categories.
    pub proof fn lemma_statuses_len(&self)
        requires
            self.wf(),
        ensures
            self.statuses().len() == 13,
    {
    }

    /// Builds the fixed board: the six upper categories, then the seven
    /// lower ones, every one still open.
    pub fn new() -> (c: Categories)
        ensures
            c.wf(),
            c.statuses().len() == 13,
            forall|i: int| 0 <= i < 13 ==> c.statuses()[i] is Unscored,
    {
        let mut cats: Vec<Category> = Vec::new();
        let mut index = index_map_new();
        add_category(&mut cats, &mut index, "1", CategoryKind::Upper(Die::One));
        add_category(&mut cats, &mut index, "2", CategoryKind::Upper(Die::Two));
        add_category(&mut cats, &mut index, "3", CategoryKind::Upper(Die::Three));
        add_category(&mut cats, &mut index, "4", CategoryKind::Upper(Die::Four));
        add_category(&mut cats, &mut index, "5", CategoryKind::Upper(Die::Five));
        add_category(&mut cats, &mut index, "6", CategoryKind::Upper(Die::Six));
        add_category(&mut cats, &mut index, "3-kind", CategoryKind::NOfAKind(3));
        add_category(&mut cats, &mut index, "4-kind", CategoryKind::NOfAKind(4));
        add_category(&mut cats, &mut index, "house", CategoryKind::FullHouse);
        add_category(&mut cats, &mut index, "s-straight", CategoryKind::SmallStraight);
        add_category(&mut cats, &mut index, "l-straight", CategoryKind::LargeStraight);
        add_category(&mut cats, &mut index, "yahtzee", CategoryKind::Yahtzee);
        add_category(&mut cats, &mut index, "chance", CategoryKind::Chance);
        let c = Categories { cats, index };
        proof {
            lemma_cat_names_distinct();
            assert forall|i: int|
                0 <= i < 13 implies (#[trigger] c.cats@[i]).name@ == cat_name(i) && c.cats@[i].kind
                == cat_kind(i) && c.cats@[i].status is Unscored by {}
            assert forall|i: int|
                0 <= i < 13 implies index_map_entries(c.index).dom().contains(
                #[trigger] cat_name(i),
            ) && index_map_entries(c.index)[cat_name(i)] == i as usize by {}
        }
        c
    }

    /// Looks the category up by name and commits it against the row, as the
    /// player asked: an unknown name reports nothing, a committed category
    /// reports `AlreadyScored` and nothing changes, an open one records its
    /// outcome.
    pub fn score(&mut self, name: &str, row: &DiceRow) -> (r: Option<ScoreResult>)
        requires
            old(self).wf(),
        ensures
            final(self).wf(),
            (forall|i: int| 0 <= i < 13 ==> name@ != #[trigger] cat_name(i)) ==> r is None
                && final(self).statuses() =~= old(self).statuses(),
            forall|i: int|
                0 <= i < 13 && name@ == #[trigger] cat_name(i) ==> match old(self).statuses()[i] {
                    ScoreStatus::Unscored => {
                        &&& final(self).statuses() =~= old(self).statuses().update(
                            i,
                            ScoreStatus::Scored(score_outcome(cat_kind(i), row@)),
                        )
                        &&& r == Some(ScoreResult::Score(score_outcome(cat_kind(i), row@)))
                    },
                    ScoreStatus::Scored(_) => final(self).statuses() =~= old(self).statuses() && r
                        == Some(ScoreResult::AlreadyScored),
                },
    {
        proof {
            lemma_cat_names_distinct();
        }
        let idx_opt = index_map_get(&self.index, name);
        match idx_opt {
            None => {
                proof {
                    assert forall|i: int| 0 <= i < 13 implies name@ != #[trigger] cat_name(i) by {
                        if name@ == cat_name(i) {
                            assert(index_map_entries(self.index).dom().contains(cat_name(i)));
                        }
                    }
                }
                None
            },
            Some(idx) => {
                proof {
                    let j = choose|j: int| 0 <= j < 13 && name@ == cat_name(j);
                    assert(index_map_entries(self.index)[cat_name(j)] == j as usize);
                    assert(idx == j);
                }
                let ghost old_cats = self.cats@;
                let mut c = self.cats.remove(idx);
                let res = c.score(row);
                self.cats.insert(idx, c);
                proof {
                    assert forall|k: int|
                        0 <= k < 13 implies #[trigger] self.cats@[k] == old_cats.update(
                        idx as int,
                        c,
                    )[k] by {}
                    assert(self.cats@ =~= old_cats.update(idx as int, c));
                    assert forall|k: int|
                        0 <= k < 13 implies #[trigger] self.statuses()[k] == old(
                        self,
                    ).statuses().update(idx as int, c.status)[k] by {}
                    assert(self.statuses() =~= old(self).statuses().update(idx as int, c.status));
                }
                Some(res)
            },
        }
    }

    /// How many categories the board holds.
    pub fn len(&self) -> (r: usize)
        requires
            self.wf(),
        ensures
            r == 13,
    {
        self.cats.len()
    }

    /// The name of the category at a display position.
    pub fn name_at(&self, i: usize) -> (r: &String)
        requires
            self.wf(),
            i < 13,
        ensures
            r@ == cat_name(i as int),
    {
        &self.cats[i].name
    }

    /// The commitment status of the category at a display position.
    pub fn status_at(&self, i: usize) -> (r: ScoreStatus)
        requires
            self.wf(),
            i < 13,
        ensures
            r == self.statuses()[i as int],
    {
        self.cats[i].status
    }
}

/// Appends one category to the board under construction and records its
/// position in the name index.
fn add_category(cats: &mut Vec<Category>, index: &mut NameIndex, name: &str, kind: CategoryKind)
    ensures
        final(cats)@.len() == old(cats)@.len() + 1,
        forall|i: int| 0 <= i < old(cats)@.len() ==> final(cats)@[i] == old(cats)@[i],
        final(cats)@.last().name@ == name@,
        final(cats)@.last().kind == kind,
        final(cats)@.last().status is Unscored,
        index_map_entries(*final(index)) == index_map_entries(*old(index)).insert(
            name@,
            old(cats)@.len() as usize,
        ),
{
    let pos = cats.len();
    cats.push(Category::new(String::from_str(name), kind));
    index_map_insert(index, String::from_str(name), pos);
}

} // verus!
