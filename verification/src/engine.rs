//! The game engine: deterministic target selection, the hint revelation
//! state machine, name prediction, and answer verification.
//!
//! A numeric game id selects its target player by `game_id mod catalog
//! size` over the catalog's fixed load-time order, so the same id always
//! yields the same player for the lifetime of one loaded catalog. Each
//! running game keeps a hint counter; a reveal advances it by one and shows
//! the fact categories up to the counter, capped at the category total, with
//! the player's image attached once every category is visible. A counter
//! that has advanced past the image step ends the game as a loss.

use vstd::prelude::*;

use crate::catalog::PlayerInfo;
use crate::session::{bump, SessionStore};
use crate::text::{
    dec_str_of, i32_to_dec, int_str_of, is_prefix_of, lower_case_of, split_sp, split_spaces,
    str_eq, str_starts_with, to_lower, u32_to_dec,
};

verus! {

/// How many fact categories a player profile has.
pub const CATEGORY_COUNT: u32 = 6;

/// The hint counter value one past the last category: the image-reveal step.
pub const MAX_HINT: u32 = CATEGORY_COUNT + 1;

/// The hint counter a fresh session starts with: two categories are
/// pre-revealed as a difficulty baseline.
pub const START_HINT: u32 = 2;

/// One revealed fact line: a category label, the player's value for it, and
/// whether this line is the newest (to be animated by the boundary layer).
pub struct Line {
    pub category: String,
    pub answer: String,
    pub animated: bool,
}

/// The display data for one player at one hint level.
pub struct PlayerDisplay {
    pub name: String,
    pub lines: Vec<Line>,
    pub image: String,
}

/// What a reveal request comes back with.
pub enum RevealOutcome {
    /// No session exists for the game id: the request is a no-op.
    NoSession,
    /// The categories visible at this step; the image is attached once all
    /// categories are visible.
    Hints { lines: Vec<Line>, image: Option<String> },
    /// The hints have run out: the game is lost and the full profile, with
    /// the true name, is disclosed.
    Exhausted { profile: PlayerDisplay },
}

/// What an answer submission comes back with.
pub enum AnswerOutcome {
    /// The guess named the target: the full profile is disclosed.
    Correct { profile: PlayerDisplay },
    /// A wrong guess: a first-class game outcome, not an error.
    Incorrect,
}

// ---------------------------------------------------------------------------
// Selection
// ---------------------------------------------------------------------------

/// The ordinal position of the target player for `game_id`.
pub open spec fn target_index(catalog: Seq<PlayerInfo>, game_id: u32) -> int
    recommends
        catalog.len() > 0,
{
    (game_id as int) % (catalog.len() as int)
}

/// The target player record for `game_id`.
pub open spec fn target_of(catalog: Seq<PlayerInfo>, game_id: u32) -> PlayerInfo
    recommends
        catalog.len() > 0,
{
    catalog[target_index(catalog, game_id)]
}

/// Picks the target player for a game id: `game_id mod catalog size` over
/// the catalog's fixed order.
pub fn select_target(catalog: &Vec<PlayerInfo>, game_id: u32) -> (r: &PlayerInfo)
    requires
        catalog@.len() > 0,
    ensures
        *r == target_of(catalog@, game_id),
{
    let idx: usize = (game_id as usize) % catalog.len();
    &catalog[idx]
}

/// The target player's name for a game id.
pub fn get_answer(player_infos: &Vec<PlayerInfo>, game_id: u32) -> (r: String)
    requires
        player_infos@.len() > 0,
    ensures
        r@ == target_of(player_infos@, game_id).name@,
{
    select_target(player_infos, game_id).name.clone()
}

/// Law: selection is a pure function of the catalog and the game id — any
/// two results that satisfy `select_target`'s contract for the same inputs
/// are the same player record.
pub proof fn lemma_select_target_deterministic(
    catalog: Seq<PlayerInfo>,
    game_id: u32,
    a: PlayerInfo,
    b: PlayerInfo,
)
    requires
        catalog.len() > 0,
        a == target_of(catalog, game_id),
        b == target_of(catalog, game_id),
    ensures
        a == b,
{
}

// ---------------------------------------------------------------------------
// Display data
// ---------------------------------------------------------------------------

/// The fixed category order of the revealable facts.
pub open spec fn cat_label(i: int) -> Seq<char> {
    if i == 0 {
        "Peak rating"@
    } else if i == 1 {
        "Birth date"@
    } else if i == 2 {
        "Year of GM title"@
    } else if i == 3 {
        "Citizenship"@
    } else if i == 4 {
        "Birth place"@
    } else {
        "Chess.com username"@
    }
}

/// The player's value for category `i`.
pub open spec fn answer_of(rec: PlayerInfo, i: int) -> Seq<char> {
    if i == 0 {
        dec_str_of(rec.peak_rating as nat)
    } else if i == 1 {
        rec.birth_date@
    } else if i == 2 {
        int_str_of(rec.year_of_gm as int)
    } else if i == 3 {
        rec.citizenship_country@
    } else if i == 4 {
        rec.birth_place@
    } else {
        if rec.chess_com_name@.len() == 0 {
            "Unknown"@
        } else {
            rec.chess_com_name@[0]@
        }
    }
}

/// The player's display image: the first stored image, or empty.
pub open spec fn first_image(rec: PlayerInfo) -> Seq<char> {
    if rec.images@.len() == 0 {
        Seq::<char>::empty()
    } else {
        rec.images@[0]@
    }
}

/// `l` is the line of category `i` for `rec` at hint level `hint_nr`.
pub open spec fn line_matches(l: Line, rec: PlayerInfo, i: int, hint_nr: u32) -> bool {
    &&& l.category@ == cat_label(i)
    &&& l.answer@ == answer_of(rec, i)
    &&& l.animated == (i + 1 == hint_nr as int)
}

/// How many category lines hint level `hint_nr` shows.
pub open spec fn shown_count(hint_nr: u32) -> int {
    if hint_nr <= CATEGORY_COUNT {
        hint_nr as int
    } else {
        CATEGORY_COUNT as int
    }
}

/// `ls` is the category list visible at hint level `hint_nr` for `rec`.
pub open spec fn lines_match(ls: Seq<Line>, rec: PlayerInfo, hint_nr: u32) -> bool {
    &&& ls.len() == shown_count(hint_nr)
    &&& forall|i: int| 0 <= i < ls.len() ==> line_matches(#[trigger] ls[i], rec, i, hint_nr)
}

/// `d` is the full display of `rec` at hint level `hint_nr`.
pub open spec fn display_matches(d: PlayerDisplay, rec: PlayerInfo, hint_nr: u32) -> bool {
    &&& d.name@ == rec.name@
    &&& lines_match(d.lines@, rec, hint_nr)
    &&& d.image@ == first_image(rec)
}

/// Builds the line of category `idx` for `info` at hint level `hint_nr`.
fn line_for(info: &PlayerInfo, idx: u32, hint_nr: u32) -> (l: Line)
    requires
        idx < CATEGORY_COUNT,
    ensures
        line_matches(l, *info, idx as int, hint_nr),
{
    if idx == 0 {
        Line {
            category: String::from_str("Peak rating"),
            answer: u32_to_dec(info.peak_rating),
            animated: hint_nr == 1,
        }
    } else if idx == 1 {
        Line {
            category: String::from_str("Birth date"),
            answer: info.birth_date.clone(),
            animated: hint_nr == 2,
        }
    } else if idx == 2 {
        Line {
            category: String::from_str("Year of GM title"),
            answer: i32_to_dec(info.year_of_gm),
            animated: hint_nr == 3,
        }
    } else if idx == 3 {
        Line {
            category: String::from_str("Citizenship"),
            answer: info.citizenship_country.clone(),
            animated: hint_nr == 4,
        }
    } else if idx == 4 {
        Line {
            category: String::from_str("Birth place"),
            answer: info.birth_place.clone(),
            animated: hint_nr == 5,
        }
    } else {
        let answer = if info.chess_com_name.len() > 0 {
            info.chess_com_name[0].clone()
        } else {
            String::from_str("Unknown")
        };
        Line { category: String::from_str("Chess.com username"), answer, animated: hint_nr == 6 }
    }
}

/// The display of the target player for `game_id` at hint level `hint_nr`:
/// the category list truncated to the hint level, plus name and image. A
/// hint level past the image step yields `None` (the hints have run out).
pub fn get_player_display(player_infos: &Vec<PlayerInfo>, game_id: u32, hint_nr: u32) -> (r:
    Option<PlayerDisplay>)
    requires
        player_infos@.len() > 0,
    ensures
        r is Some <==> hint_nr <= MAX_HINT,
        r matches Some(d) ==> display_matches(d, target_of(player_infos@, game_id), hint_nr),
{
    if hint_nr > MAX_HINT {
        return None;
    }
    let info = select_target(player_infos, game_id);
    let k: u32 = if hint_nr < CATEGORY_COUNT {
        hint_nr
    } else {
        CATEGORY_COUNT
    };
    let mut lines: Vec<Line> = Vec::new();
    let mut li: u32 = 0;
    while li < k
        invariant
            0 <= li <= k,
            k <= CATEGORY_COUNT,
            lines@.len() == li as int,
            forall|i: int|
                0 <= i < li as int ==> line_matches(#[trigger] lines@[i], *info, i, hint_nr),
        decreases k - li,
    {
        lines.push(line_for(info, li, hint_nr));
        li += 1;
    }
    let image = if info.images.len() > 0 {
        info.images[0].clone()
    } else {
        String::new()
    };
    Some(PlayerDisplay { name: info.name.clone(), lines, image })
}

// ---------------------------------------------------------------------------
// Prediction
// ---------------------------------------------------------------------------

/// The folded query `lq` matches `name`: it is a prefix of the folded full
/// name, or of some folded space-delimited piece of the name.
pub open spec fn name_matches(name: Seq<char>, lq: Seq<char>) -> bool {
    ||| is_prefix_of(lq, lower_case_of(name))
    ||| exists|j: int|
        0 <= j < split_sp(name).len() && is_prefix_of(
            lq,
            lower_case_of(#[trigger] split_sp(name)[j]),
        )
}

/// The folded query matches the player at position `i` of the catalog.
pub open spec fn matches_at(catalog: Seq<PlayerInfo>, lq: Seq<char>, i: int) -> bool {
    name_matches(catalog[i].name@, lq)
}

/// Does the folded query match this player's name or one of its pieces?
fn player_matches(p: &PlayerInfo, lq: &String) -> (b: bool)
    ensures
        b == name_matches(p.name@, lq@),
{
    let lname = to_lower(p.name.as_str());
    if str_starts_with(lname.as_str(), lq.as_str()) {
        return true;
    }
    let parts = split_spaces(p.name.as_str());
    let n = parts.len();
    let mut t: usize = 0;
    while t < n
        invariant
            0 <= t <= n,
            n == parts@.len(),
            parts.deep_view() == split_sp(p.name@),
            forall|u: int|
                0 <= u < t ==> !is_prefix_of(lq@, lower_case_of(#[trigger] split_sp(p.name@)[u])),
        decreases n - t,
    {
        let lt = to_lower(parts[t].as_str());
        if str_starts_with(lt.as_str(), lq.as_str()) {
            proof {
                assert(split_sp(p.name@)[t as int] == parts.deep_view()[t as int]);
            }
            return true;
        }
        proof {
            assert(split_sp(p.name@)[t as int] == parts.deep_view()[t as int]);
        }
        t += 1;
    }
    false
}

/// Finds the first player, in catalog order, whose name — or one of its
/// space-delimited pieces — starts, case-insensitively, with the partial
/// input. Inputs shorter than three characters never yield a prediction.
pub fn predict_name(catalog: &Vec<PlayerInfo>, partial: &str) -> (r: Option<String>)
    ensures
        partial@.len() < 3 ==> r is None,
        r matches Some(nm) ==> exists|i: int|
            0 <= i < catalog@.len() && #[trigger] matches_at(catalog@, lower_case_of(partial@), i)
                && nm@ == catalog@[i].name@ && (forall|j: int|
                0 <= j < i ==> !matches_at(catalog@, lower_case_of(partial@), j)),
        r is None ==> partial@.len() < 3 || (forall|i: int|
            0 <= i < catalog@.len() ==> !matches_at(catalog@, lower_case_of(partial@), i)),
{
    if partial.unicode_len() < 3 {
        return None;
    }
    let lq = to_lower(partial);
    let n = catalog.len();
    let mut i: usize = 0;
    while i < n
        invariant
            0 <= i <= n,
            n == catalog@.len(),
            partial@.len() >= 3,
            lq@ == lower_case_of(partial@),
            forall|j: int| 0 <= j < i ==> !matches_at(catalog@, lower_case_of(partial@), j),
        decreases n - i,
    {
        let p = &catalog[i];
        if player_matches(p, &lq) {
            proof {
                assert(matches_at(catalog@, lower_case_of(partial@), i as int));
            }
            return Some(p.name.clone());
        }
        i += 1;
    }
    None
}

// ---------------------------------------------------------------------------
// The engine
// ---------------------------------------------------------------------------

/// The game engine: the read-only player catalog in its fixed load-time
/// order, and the mutable per-game session store.
pub struct Engine {
    pub catalog: Vec<PlayerInfo>,
    pub sessions: SessionStore,
}

impl Engine {
    /// A served engine always holds a non-empty catalog and a well-formed
    /// session store.
    pub open spec fn wf(self) -> bool {
        &&& self.catalog@.len() > 0
        &&& self.sessions.wf()
    }

    /// Builds an engine over a catalog; an empty catalog is refused, since
    /// no target could be selected from it.
    pub fn new(catalog: Vec<PlayerInfo>) -> (r: Option<Engine>)
        ensures
            r is Some <==> catalog@.len() > 0,
            r matches Some(e) ==> e.wf() && e.catalog@ == catalog@ && e.sessions@ == Map::<
                u32,
                u32,
            >::empty(),
    {
        if catalog.len() == 0 {
            None
        } else {
            Some(Engine { catalog, sessions: SessionStore::new() })
        }
    }

    /// Starts (or restarts) the game `game_id`: the session counter is
    /// seeded at `START_HINT`, while the returned first view shows exactly
    /// one line.
    pub fn start(&mut self, game_id: u32) -> (r: Vec<Line>)
        requires
            old(self).wf(),
        ensures
            final(self).wf(),
            final(self).catalog@ == old(self).catalog@,
            final(self).sessions@ == old(self).sessions@.insert(game_id, START_HINT),
            lines_match(r@, target_of(old(self).catalog@, game_id), 1),
    {
        self.sessions.set(game_id, START_HINT);
        let d = get_player_display(&self.catalog, game_id, 1).unwrap();
        d.lines
    }

    /// Reveals the next step of game `game_id`. Without a session this is
    /// the no-op `NoSession` outcome, never a failure. Otherwise the stored
    /// counter `h` advances by one unconditionally, and the result shows
    /// `min(h, CATEGORY_COUNT)` lines with the image attached once `h` has
    /// reached `CATEGORY_COUNT` — or, when `h` has advanced past the image
    /// step, the game is lost and the full profile is disclosed.
    pub fn reveal_next(&mut self, game_id: u32) -> (r: RevealOutcome)
        requires
            old(self).wf(),
        ensures
            final(self).wf(),
            final(self).catalog@ == old(self).catalog@,
            !old(self).sessions@.contains_key(game_id) ==> r is NoSession && final(self).sessions@
                == old(self).sessions@,
            old(self).sessions@.contains_key(game_id) ==> final(self).sessions@ == old(
                self,
            ).sessions@.insert(game_id, bump(old(self).sessions@[game_id])),
            old(self).sessions@.contains_key(game_id) && old(self).sessions@[game_id] <= MAX_HINT
                ==> r is Hints && lines_match(
                r->lines@,
                target_of(old(self).catalog@, game_id),
                old(self).sessions@[game_id],
            ) && (r->image is Some <==> old(self).sessions@[game_id] >= CATEGORY_COUNT) && (
            r->image matches Some(img) ==> img@ == first_image(
                target_of(old(self).catalog@, game_id),
            )),
            old(self).sessions@.contains_key(game_id) && old(self).sessions@[game_id] > MAX_HINT
                ==> r is Exhausted && display_matches(
                r->profile,
                target_of(old(self).catalog@, game_id),
                MAX_HINT,
            ),
    {
        match self.sessions.get_and_increment(game_id) {
            None => RevealOutcome::NoSession,
            Some(h) => {
                if h > MAX_HINT {
                    let profile = get_player_display(&self.catalog, game_id, MAX_HINT).unwrap();
                    RevealOutcome::Exhausted { profile }
                } else {
                    let d = get_player_display(&self.catalog, game_id, h).unwrap();
                    let PlayerDisplay { name: _, lines, image } = d;
                    let image = if h >= CATEGORY_COUNT {
                        Some(image)
                    } else {
                        None
                    };
                    RevealOutcome::Hints { lines, image }
                }
            },
        }
    }

    /// The terminal display of game `game_id`: the full profile with the
    /// true name, as disclosed on a skipped or lost game.
    pub fn resolve(&self, game_id: u32) -> (d: PlayerDisplay)
        requires
            self.wf(),
        ensures
            display_matches(d, target_of(self.catalog@, game_id), MAX_HINT),
    {
        get_player_display(&self.catalog, game_id, MAX_HINT).unwrap()
    }

    /// Checks a guess against the target's name, case-insensitively. A match
    /// discloses the full profile as a success; anything else is the
    /// distinct `Incorrect` outcome.
    pub fn answer(&self, game_id: u32, guess: &str) -> (r: AnswerOutcome)
        requires
            self.wf(),
        ensures
            r is Correct <==> lower_case_of(guess@) == lower_case_of(
                target_of(self.catalog@, game_id).name@,
            ),
            r matches AnswerOutcome::Correct { profile } ==> display_matches(
                profile,
                target_of(self.catalog@, game_id),
                MAX_HINT,
            ),
    {
        let target = select_target(&self.catalog, game_id);
        let lg = to_lower(guess);
        let ln = to_lower(target.name.as_str());
        if str_eq(lg.as_str(), ln.as_str()) {
            let profile = get_player_display(&self.catalog, game_id, MAX_HINT).unwrap();
            AnswerOutcome::Correct { profile }
        } else {
            AnswerOutcome::Incorrect
        }
    }

    /// Predicts a player name from a partial input; see `predict_name`.
    pub fn predict(&self, partial: &str) -> (r: Option<String>)
        ensures
            partial@.len() < 3 ==> r is None,
            r matches Some(nm) ==> exists|i: int|
                0 <= i < self.catalog@.len() && #[trigger] matches_at(
                    self.catalog@,
                    lower_case_of(partial@),
                    i,
                ) && nm@ == self.catalog@[i].name@ && (forall|j: int|
                    0 <= j < i ==> !matches_at(self.catalog@, lower_case_of(partial@), j)),
            r is None ==> partial@.len() < 3 || (forall|i: int|
                0 <= i < self.catalog@.len() ==> !matches_at(
                    self.catalog@,
                    lower_case_of(partial@),
                    i,
                )),
    {
        predict_name(&self.catalog, partial)
    }
}

// ---------------------------------------------------------------------------
// Laws of the hint progression
// ---------------------------------------------------------------------------

/// Law: a session starts with its counter at `START_HINT` while the start
/// view shows exactly one line; every reveal advances the counter by one;
/// the visible line count grows by exactly one per reveal until it is capped
/// at the category total; and the image is attached exactly from the reveal
/// whose counter has reached the category total.
pub proof fn lemma_hint_progression(h: u32)
    requires
        START_HINT <= h <= MAX_HINT,
    ensures
        bump(h) == h + 1,
        shown_count(h) == if h <= CATEGORY_COUNT {
            h as int
        } else {
            CATEGORY_COUNT as int
        },
        h < CATEGORY_COUNT ==> shown_count(bump(h)) == shown_count(h) + 1,
        h >= CATEGORY_COUNT ==> shown_count(bump(h)) == CATEGORY_COUNT as int,
        shown_count(START_HINT) == shown_count(1u32) + 1,
{
}

} // verus!
