use vstd::prelude::*;

verus! {

/// Observed outcomes of one opening position: white wins, draws, black wins.
#[derive(PartialEq, Eq, Structural, Clone, Copy, Debug, Hash)]
pub struct OpeningResult {
    pub white_win_count: u32,
    pub draw_count: u32,
    pub black_win_count: u32,
}

impl OpeningResult {
    /// The total number of games observed for this opening.
    pub open spec fn spec_total_games(self) -> int {
        self.white_win_count + self.draw_count + self.black_win_count
    }

    /// The three counts fit in a `u32` when added together.
    pub open spec fn total_in_range(self) -> bool {
        self.spec_total_games() <= u32::MAX
    }

    pub fn total_games(&self) -> (t: u32)
        requires
            self.total_in_range(),
        ensures
            t == self.spec_total_games(),
    {
        self.white_win_count + self.draw_count + self.black_win_count
    }
}

/// How a recorded game ended; anything but the three counted outcomes is
/// `Other` and is rejected by the aggregation.
#[derive(PartialEq, Eq, Structural, Clone, Copy, Debug)]
pub enum Termination {
    WhiteWins,
    Draw,
    BlackWins,
    Other,
}

/// One parsed game: its header tags (name, value) and how it ended.
pub struct GameRecord {
    pub tags: Vec<(String, String)>,
    pub termination: Termination,
}

/// Why a collection of game records cannot be aggregated.
#[derive(PartialEq, Eq, Structural, Clone, Copy, Debug)]
pub enum AnalysisError {
    FenTagMissing,
    TooManyFenTags,
    BadGameTermination,
}

impl AnalysisError {
    pub fn message(&self) -> (m: String)
        ensures
            self is FenTagMissing ==> m@ == "FEN tag not found"@,
            self is TooManyFenTags ==> m@ == "Too many FEN tags found"@,
            self is BadGameTermination ==> m@ == "Bad game termination found"@,
    {
        match self {
            AnalysisError::FenTagMissing => "FEN tag not found".to_owned(),
            AnalysisError::TooManyFenTags => "Too many FEN tags found".to_owned(),
            AnalysisError::BadGameTermination => "Bad game termination found".to_owned(),
        }
    }
}

/// How many tags of the list are named FEN.
pub open spec fn fen_tag_count(tags: Seq<(String, String)>) -> int
    decreases tags.len(),
{
    if tags.len() == 0 {
        0
    } else {
        fen_tag_count(tags.drop_last()) + if tags.last().0@ == "FEN"@ {
            1int
        } else {
            0int
        }
    }
}

proof fn lemma_fen_tag_count_nonneg(tags: Seq<(String, String)>)
    ensures
        fen_tag_count(tags) >= 0,
    decreases tags.len(),
{
    if tags.len() > 0 {
        lemma_fen_tag_count_nonneg(tags.drop_last());
    }
}

/// The value of the first tag named FEN (the empty sequence if there is none).
pub open spec fn fen_value(tags: Seq<(String, String)>) -> Seq<char>
    decreases tags.len(),
{
    if tags.len() == 0 {
        Seq::empty()
    } else if tags[0].0@ == "FEN"@ {
        tags[0].1@
    } else {
        fen_value(tags.drop_first())
    }
}

proof fn lemma_fen_value_at(tags: Seq<(String, String)>, k: int)
    requires
        0 <= k < tags.len(),
        tags[k].0@ == "FEN"@,
        forall|j: int| 0 <= j < k ==> tags[j].0@ != "FEN"@,
    ensures
        fen_value(tags) == tags[k].1@,
    decreases k,
{
    if k > 0 {
        assert(tags[0].0@ != "FEN"@);
        lemma_fen_value_at(tags.drop_first(), k - 1);
        assert(tags.drop_first()[k - 1] == tags[k]);
    }
}

/// Picks the FEN tag of one game's tag list: the tag must exist and be
/// unique, exactly as the aggregation demands it.
pub fn extract_fen(tags: &Vec<(String, String)>) -> (res: Result<String, AnalysisError>)
    ensures
        (fen_tag_count(tags@) == 0) <==> res == Err::<String, AnalysisError>(
            AnalysisError::FenTagMissing,
        ),
        (fen_tag_count(tags@) >= 2) <==> res == Err::<String, AnalysisError>(
            AnalysisError::TooManyFenTags,
        ),
        (fen_tag_count(tags@) == 1) <==> res is Ok,
        res matches Ok(v) ==> v@ == fen_value(tags@),
{
    let fen_key: String = "FEN".to_owned();
    let mut count: usize = 0;
    let mut value: Option<String> = None;
    let ghost mut gk: int = 0;
    let mut j: usize = 0;
    while j < tags.len()
        invariant
            0 <= j <= tags@.len(),
            count == fen_tag_count(tags@.take(j as int)),
            0 <= count <= j,
            fen_key@ == "FEN"@,
            value is Some <==> count >= 1,
            value matches Some(v) ==> {
                &&& 0 <= gk < j
                &&& tags@[gk].0@ == "FEN"@
                &&& v@ == tags@[gk].1@
                &&& forall|p: int| 0 <= p < gk ==> tags@[p].0@ != "FEN"@
            },
            value is None ==> forall|p: int| 0 <= p < j ==> tags@[p].0@ != "FEN"@,
        decreases tags@.len() - j,
    {
        proof {
            assert(tags@.take(j + 1).drop_last() =~= tags@.take(j as int));
            assert(tags@.take(j + 1).last() == tags@[j as int]);
        }
        if tags[j].0 == fen_key {
            count = count + 1;
            if value.is_none() {
                value = Some(tags[j].1.clone());
                proof {
                    gk = j as int;
                }
            }
        }
        j = j + 1;
    }
    proof {
        assert(tags@.take(tags@.len() as int) =~= tags@);
    }
    if count == 0 {
        Err(AnalysisError::FenTagMissing)
    } else if count == 1 {
        let v = value.unwrap();
        proof {
            lemma_fen_value_at(tags@, gk);
        }
        Ok(v)
    } else {
        Err(AnalysisError::TooManyFenTags)
    }
}

/// How many leading characters of the text come before its first space.
pub open spec fn space_free_prefix_len(s: Seq<char>) -> int
    decreases s.len(),
{
    if s.len() == 0 {
        0
    } else if s[0] == ' ' {
        0
    } else {
        1 + space_free_prefix_len(s.drop_first())
    }
}

proof fn lemma_space_free_prefix_at(s: Seq<char>, i: int)
    requires
        0 <= i <= s.len(),
        forall|k: int| 0 <= k < i ==> s[k] != ' ',
        i < s.len() ==> s[i] == ' ',
    ensures
        space_free_prefix_len(s) == i,
    decreases i,
{
    if i == 0 {
    } else {
        assert(s[0] != ' ');
        lemma_space_free_prefix_at(s.drop_first(), i - 1);
        assert(forall|k: int| 0 <= k < i - 1 ==> s.drop_first()[k] == s[k + 1]);
        if i < s.len() {
            assert(s.drop_first()[i - 1] == s[i]);
        }
    }
}

/// The text up to, and not including, its first space: the board-placement
/// field of a FEN record, under which an opening is reported.
pub fn first_token(s: &str) -> (r: String)
    ensures
        r@ == s@.take(space_free_prefix_len(s@)),
{
    let len: usize = s.unicode_len();
    let mut i: usize = 0;
    let mut stop: bool = false;
    while i < len && !stop
        invariant
            0 <= i <= s@.len(),
            len == s@.len(),
            forall|k: int| 0 <= k < i ==> s@[k] != ' ',
            stop ==> i < s@.len() && s@[i as int] == ' ',
        decreases s@.len() - i + if stop {
            0int
        } else {
            1int
        },
    {
        if s.get_char(i) == ' ' {
            stop = true;
        } else {
            i = i + 1;
        }
    }
    proof {
        lemma_space_free_prefix_at(s@, i as int);
    }
    let token = s.substring_char(0, i);
    proof {
        assert(token@ =~= s@.take(i as int));
    }
    token.to_owned()
}

/// Whether one game record is fit for aggregation: exactly one FEN tag and
/// a counted termination.
pub open spec fn record_clean(g: GameRecord) -> bool {
    fen_tag_count(g.tags@) == 1 && g.termination != Termination::Other
}

/// Labels every game with the FEN of its opening: the position the game
/// started from, read from its unique FEN tag.
pub fn label_games(games: &Vec<GameRecord>) -> (res: Result<
    Vec<(String, Termination)>,
    AnalysisError,
>)
    ensures
        res is Ok <==> (forall|j: int| 0 <= j < games@.len() ==> record_clean(games@[j])),
        res matches Ok(v) ==> {
            &&& v@.len() == games@.len()
            &&& forall|j: int|
                0 <= j < games@.len() ==> (#[trigger] v@[j]).1 == games@[j].termination
                    && v@[j].0@ == fen_value(games@[j].tags@)
        },
        res == Err::<Vec<(String, Termination)>, AnalysisError>(AnalysisError::FenTagMissing)
            ==> exists|j: int| 0 <= j < games@.len() && fen_tag_count(games@[j].tags@) == 0,
        res == Err::<Vec<(String, Termination)>, AnalysisError>(AnalysisError::TooManyFenTags)
            ==> exists|j: int| 0 <= j < games@.len() && fen_tag_count(games@[j].tags@) >= 2,
        res == Err::<Vec<(String, Termination)>, AnalysisError>(AnalysisError::BadGameTermination)
            ==> exists|j: int|
            0 <= j < games@.len() && games@[j].termination == Termination::Other,
{
    let mut out: Vec<(String, Termination)> = Vec::new();
    let mut j: usize = 0;
    while j < games.len()
        invariant
            0 <= j <= games@.len(),
            out@.len() == j,
            forall|p: int| 0 <= p < j ==> record_clean(games@[p]),
            forall|p: int|
                0 <= p < j ==> (#[trigger] out@[p]).1 == games@[p].termination && out@[p].0@
                    == fen_value(games@[p].tags@),
        decreases games@.len() - j,
    {
        let fen = match extract_fen(&games[j].tags) {
            Ok(f) => f,
            Err(e) => {
                proof {
                    lemma_fen_tag_count_nonneg(games@[j as int].tags@);
                    if e == AnalysisError::FenTagMissing {
                        assert(fen_tag_count(games@[j as int].tags@) == 0);
                    } else {
                        assert(fen_tag_count(games@[j as int].tags@) >= 2);
                    }
                    assert(!record_clean(games@[j as int]));
                }
                return Err(e);
            },
        };
        let term = games[j].termination;
        if matches!(term, Termination::Other) {
            proof {
                assert(games@[j as int].termination == Termination::Other);
                assert(!record_clean(games@[j as int]));
            }
            return Err(AnalysisError::BadGameTermination);
        }
        out.push((fen, term));
        j = j + 1;
    }
    Ok(out)
}

/// How many labelled games have this opening and this outcome.
pub open spec fn count_outcomes(
    s: Seq<(String, Termination)>,
    fen: Seq<char>,
    which: Termination,
) -> int
    decreases s.len(),
{
    if s.len() == 0 {
        0
    } else {
        count_outcomes(s.drop_last(), fen, which) + if s.last().0@ == fen && s.last().1 == which {
            1int
        } else {
            0int
        }
    }
}

proof fn lemma_count_outcomes_bounds(s: Seq<(String, Termination)>, fen: Seq<char>)
    ensures
        0 <= count_outcomes(s, fen, Termination::WhiteWins),
        0 <= count_outcomes(s, fen, Termination::Draw),
        0 <= count_outcomes(s, fen, Termination::BlackWins),
        count_outcomes(s, fen, Termination::WhiteWins) + count_outcomes(s, fen, Termination::Draw)
            + count_outcomes(s, fen, Termination::BlackWins) <= s.len(),
    decreases s.len(),
{
    if s.len() > 0 {
        lemma_count_outcomes_bounds(s.drop_last(), fen);
    }
}

/// No game of the list has this opening: its tallies are all zero.
proof fn lemma_count_outcomes_zero(s: Seq<(String, Termination)>, fen: Seq<char>)
    requires
        forall|p: int| 0 <= p < s.len() ==> (#[trigger] s[p]).0@ != fen,
    ensures
        count_outcomes(s, fen, Termination::WhiteWins) == 0,
        count_outcomes(s, fen, Termination::Draw) == 0,
        count_outcomes(s, fen, Termination::BlackWins) == 0,
    decreases s.len(),
{
    if s.len() > 0 {
        assert(forall|p: int|
            0 <= p < s.drop_last().len() ==> (#[trigger] s.drop_last()[p]) == s[p]);
        lemma_count_outcomes_zero(s.drop_last(), fen);
        assert(s.last() == s[s.len() - 1]);
    }
}

/// Some key of the list reads as this opening.
pub open spec fn key_covered(fen: Seq<char>, keys: Seq<String>) -> bool {
    exists|k: int| 0 <= k < keys.len() && (#[trigger] keys[k])@ == fen
}

/// Some entry of the aggregated list carries this opening.
pub open spec fn opening_listed(fen: Seq<char>, out: Seq<(String, OpeningResult)>) -> bool {
    exists|k: int| 0 <= k < out.len() && (#[trigger] out[k]).0@ == fen
}

/// Some game among the first `upto` carries this opening.
pub open spec fn opening_sourced(
    fen: Seq<char>,
    labelled: Seq<(String, Termination)>,
    upto: int,
) -> bool {
    exists|p: int| 0 <= p < upto && (#[trigger] labelled[p]).0@ == fen
}

proof fn lemma_key_covered_push(fen: Seq<char>, keys: Seq<String>, added: String)
    requires
        key_covered(fen, keys),
    ensures
        key_covered(fen, keys.push(added)),
{
    let k: int = choose|k: int| 0 <= k < keys.len() && (#[trigger] keys[k])@ == fen;
    assert(keys.push(added)[k]@ == fen);
}

/// Tallies the labelled games into one `OpeningResult` per distinct opening:
/// the counts of each entry are exactly the numbers of white wins, draws and
/// black wins recorded for that opening, every opening of the input appears,
/// and no opening appears twice.
pub fn accumulate_openings(labelled: &Vec<(String, Termination)>) -> (out: Vec<
    (String, OpeningResult),
>)
    requires
        labelled@.len() <= u32::MAX,
    ensures
        forall|p: int, q: int|
            0 <= p < q < out@.len() ==> (#[trigger] out@[p]).0@ != (#[trigger] out@[q]).0@,
        forall|k: int|
            0 <= k < out@.len() ==> {
                let e = #[trigger] out@[k];
                &&& e.1.white_win_count == count_outcomes(labelled@, e.0@, Termination::WhiteWins)
                &&& e.1.draw_count == count_outcomes(labelled@, e.0@, Termination::Draw)
                &&& e.1.black_win_count == count_outcomes(labelled@, e.0@, Termination::BlackWins)
                &&& e.1.total_in_range()
                &&& e.1.spec_total_games() <= labelled@.len()
            },
        forall|j: int|
            0 <= j < labelled@.len() ==> opening_listed((#[trigger] labelled@[j]).0@, out@),
        forall|k: int|
            0 <= k < out@.len() ==> opening_sourced(
                (#[trigger] out@[k]).0@,
                labelled@,
                labelled@.len() as int,
            ),
{
    let ghost l = labelled@;
    let mut keys: Vec<String> = Vec::new();
    let mut stats: Vec<OpeningResult> = Vec::new();
    let mut j: usize = 0;
    while j < labelled.len()
        invariant
            0 <= j <= l.len(),
            l == labelled@,
            l.len() <= u32::MAX,
            keys@.len() == stats@.len(),
            forall|p: int, q: int|
                0 <= p < q < keys@.len() ==> (#[trigger] keys@[p])@ != (#[trigger] keys@[q])@,
            forall|k: int|
                0 <= k < keys@.len() ==> {
                    let fen = (#[trigger] keys@[k])@;
                    &&& stats@[k].white_win_count == count_outcomes(
                        l.take(j as int),
                        fen,
                        Termination::WhiteWins,
                    )
                    &&& stats@[k].draw_count == count_outcomes(
                        l.take(j as int),
                        fen,
                        Termination::Draw,
                    )
                    &&& stats@[k].black_win_count == count_outcomes(
                        l.take(j as int),
                        fen,
                        Termination::BlackWins,
                    )
                },
            forall|p: int| 0 <= p < j ==> key_covered((#[trigger] l[p]).0@, keys@),
            forall|k: int|
                0 <= k < keys@.len() ==> opening_sourced((#[trigger] keys@[k])@, l, j as int),
        decreases l.len() - j,
    {
        let ghost fenj = l[j as int].0@;
        let mut idx: usize = 0;
        let mut found: bool = false;
        while idx < keys.len() && !found
            invariant
                0 <= idx <= keys@.len(),
                keys@.len() == stats@.len(),
                0 <= j < l.len(),
                l == labelled@,
                fenj == l[j as int].0@,
                !found ==> forall|p: int| 0 <= p < idx ==> (#[trigger] keys@[p])@ != fenj,
                found ==> 0 <= idx < keys@.len() && keys@[idx as int]@ == fenj,
            decreases keys@.len() - idx + if found {
                0int
            } else {
                1int
            },
        {
            if keys[idx] == labelled[j].0 {
                found = true;
            } else {
                idx = idx + 1;
            }
        }
        proof {
            assert(l.take(j + 1).drop_last() =~= l.take(j as int));
            assert(l.take(j + 1).last() == l[j as int]);
            lemma_count_outcomes_bounds(l.take(j as int), fenj);
            assert(l.take(j as int).len() == j);
        }
        if found {
            let cur = stats[idx];
            let updated = match labelled[j].1 {
                Termination::WhiteWins => OpeningResult {
                    white_win_count: cur.white_win_count + 1,
                    ..cur
                },
                Termination::Draw => OpeningResult { draw_count: cur.draw_count + 1, ..cur },
                Termination::BlackWins => OpeningResult {
                    black_win_count: cur.black_win_count + 1,
                    ..cur
                },
                Termination::Other => cur,
            };
            stats[idx] = updated;
            proof {
                assert forall|k: int| 0 <= k < keys@.len() && k != idx implies (
                #[trigger] keys@[k])@ != fenj by {
                    if k < idx {
                        assert(keys@[k]@ != keys@[idx as int]@);
                    } else {
                        assert(keys@[idx as int]@ != keys@[k]@);
                    }
                }
                lemma_key_covered_push(fenj, keys@, keys@[idx as int]);
                assert(key_covered(fenj, keys@)) by {
                    assert(keys@[idx as int]@ == fenj);
                }
            }
        } else {
            proof {
                assert(idx == keys@.len());
                assert forall|p: int| 0 <= p < j implies (#[trigger] l.take(j as int)[p]).0@
                    != fenj by {
                    assert(l.take(j as int)[p] == l[p]);
                    assert(key_covered(l[p].0@, keys@));
                    let k: int = choose|k: int|
                        0 <= k < keys@.len() && (#[trigger] keys@[k])@ == l[p].0@;
                    assert(keys@[k]@ != fenj);
                }
                lemma_count_outcomes_zero(l.take(j as int), fenj);
            }
            let key = labelled[j].0.clone();
            let zero = OpeningResult { white_win_count: 0, draw_count: 0, black_win_count: 0 };
            let updated = match labelled[j].1 {
                Termination::WhiteWins => OpeningResult { white_win_count: 1, ..zero },
                Termination::Draw => OpeningResult { draw_count: 1, ..zero },
                Termination::BlackWins => OpeningResult { black_win_count: 1, ..zero },
                Termination::Other => zero,
            };
            let ghost oldkeys = keys@;
            keys.push(key);
            stats.push(updated);
            proof {
                assert(keys@ == oldkeys.push(key));
                assert(keys@[oldkeys.len() as int]@ == fenj);
                assert forall|p: int, q: int| 0 <= p < q < keys@.len() implies (
                #[trigger] keys@[p])@ != (#[trigger] keys@[q])@ by {
                    if q < oldkeys.len() {
                        assert(oldkeys[p]@ != oldkeys[q]@);
                    } else {
                        assert(keys@[q]@ == fenj);
                        assert(oldkeys[p]@ != fenj);
                    }
                }
                assert forall|p: int| 0 <= p < j + 1 implies key_covered(
                    (#[trigger] l[p]).0@,
                    keys@,
                ) by {
                    if p < j {
                        lemma_key_covered_push(l[p].0@, oldkeys, key);
                    } else {
                        assert(keys@[oldkeys.len() as int]@ == l[p].0@);
                    }
                }
            }
        }
        j = j + 1;
        proof {
            assert forall|k: int| 0 <= k < keys@.len() implies opening_sourced(
                (#[trigger] keys@[k])@,
                l,
                j as int,
            ) by {
                if keys@[k]@ == fenj {
                    assert(l[j - 1].0@ == keys@[k]@);
                } else {
                    assert(opening_sourced(keys@[k]@, l, j - 1));
                    let p: int = choose|p: int| 0 <= p < j - 1 && (#[trigger] l[p]).0@ == keys@[k]@;
                    assert(0 <= p < j && l[p].0@ == keys@[k]@);
                }
            }
        }
    }
    proof {
        assert(l.take(l.len() as int) =~= l);
    }
    let mut out: Vec<(String, OpeningResult)> = Vec::new();
    let mut k: usize = 0;
    while k < keys.len()
        invariant
            0 <= k <= keys@.len(),
            keys@.len() == stats@.len(),
            out@.len() == k,
            forall|p: int|
                0 <= p < k ==> (#[trigger] out@[p]).0@ == keys@[p]@ && out@[p].1 == stats@[p],
        decreases keys@.len() - k,
    {
        out.push((keys[k].clone(), stats[k]));
        k = k + 1;
    }
    proof {
        assert forall|kk: int| 0 <= kk < out@.len() implies {
            let e = #[trigger] out@[kk];
            &&& e.1.white_win_count == count_outcomes(l, e.0@, Termination::WhiteWins)
            &&& e.1.draw_count == count_outcomes(l, e.0@, Termination::Draw)
            &&& e.1.black_win_count == count_outcomes(l, e.0@, Termination::BlackWins)
            &&& e.1.total_in_range()
            &&& e.1.spec_total_games() <= l.len()
        } by {
            lemma_count_outcomes_bounds(l, out@[kk].0@);
        }
        assert forall|p: int| 0 <= p < l.len() implies opening_listed(
            (#[trigger] l[p]).0@,
            out@,
        ) by {
            assert(key_covered(l[p].0@, keys@));
            let k0: int = choose|k0: int| 0 <= k0 < keys@.len() && (#[trigger] keys@[k0])@ == l[p].0@;
            assert(out@[k0].0@ == l[p].0@);
        }
        assert forall|kk: int| 0 <= kk < out@.len() implies opening_sourced(
            (#[trigger] out@[kk]).0@,
            l,
            l.len() as int,
        ) by {
            assert(out@[kk].0@ == keys@[kk]@);
            assert(opening_sourced(keys@[kk]@, l, l.len() as int));
        }
    }
    out
}

/// The openings and terminations of the games, read off at the
/// specification level: each game labelled with the value of its first
/// FEN tag.
pub open spec fn spec_labels(games: Seq<GameRecord>) -> Seq<(Seq<char>, Termination)> {
    games.map_values(|g: GameRecord| (fen_value(g.tags@), g.termination))
}

/// How many games of the labelled sequence have this opening and this
/// outcome.
pub open spec fn count_games(
    s: Seq<(Seq<char>, Termination)>,
    fen: Seq<char>,
    which: Termination,
) -> int
    decreases s.len(),
{
    if s.len() == 0 {
        0
    } else {
        count_games(s.drop_last(), fen, which) + if s.last().0 == fen && s.last().1 == which {
            1int
        } else {
            0int
        }
    }
}

proof fn lemma_count_bridge(
    l: Seq<(String, Termination)>,
    m: Seq<(Seq<char>, Termination)>,
    fen: Seq<char>,
    which: Termination,
)
    requires
        m.len() == l.len(),
        forall|j: int|
            0 <= j < l.len() ==> (#[trigger] m[j]).0 == l[j].0@ && m[j].1 == l[j].1,
    ensures
        count_outcomes(l, fen, which) == count_games(m, fen, which),
    decreases l.len(),
{
    if l.len() > 0 {
        assert(forall|j: int|
            0 <= j < l.len() - 1 ==> (#[trigger] m.drop_last()[j]) == m[j] && l.drop_last()[j]
                == l[j]);
        lemma_count_bridge(l.drop_last(), m.drop_last(), fen, which);
        assert(m.last() == m[l.len() - 1] && l.last() == l[l.len() - 1]);
    }
}

/// Some game of the collection opens with this position.
pub open spec fn opening_from_games(fen: Seq<char>, games: Seq<GameRecord>) -> bool {
    exists|j: int| 0 <= j < games.len() && fen_value((#[trigger] games[j]).tags@) == fen
}

/// Aggregates a collection of game records into per-opening outcome counts:
/// every game must carry exactly one FEN tag and a counted termination, and
/// the result holds, for each distinct opening position, exactly how many
/// of its games white won, were drawn, and black won.
pub fn collect_opening_stats(games: &Vec<GameRecord>) -> (res: Result<
    Vec<(String, OpeningResult)>,
    AnalysisError,
>)
    requires
        games@.len() <= u32::MAX,
    ensures
        res is Ok <==> (forall|j: int| 0 <= j < games@.len() ==> record_clean(games@[j])),
        res matches Ok(v) ==> {
            &&& forall|p: int, q: int|
                0 <= p < q < v@.len() ==> (#[trigger] v@[p]).0@ != (#[trigger] v@[q]).0@
            &&& forall|k: int|
                0 <= k < v@.len() ==> {
                    let e = #[trigger] v@[k];
                    &&& e.1.white_win_count == count_games(
                        spec_labels(games@),
                        e.0@,
                        Termination::WhiteWins,
                    )
                    &&& e.1.draw_count == count_games(
                        spec_labels(games@),
                        e.0@,
                        Termination::Draw,
                    )
                    &&& e.1.black_win_count == count_games(
                        spec_labels(games@),
                        e.0@,
                        Termination::BlackWins,
                    )
                    &&& e.1.total_in_range()
                    &&& e.1.spec_total_games() <= games@.len()
                }
            &&& forall|j: int|
                0 <= j < games@.len() ==> opening_listed(
                    fen_value((#[trigger] games@[j]).tags@),
                    v@,
                )
            &&& forall|k: int| 0 <= k < v@.len() ==> opening_from_games((#[trigger] v@[k]).0@, games@)
        },
        res == Err::<Vec<(String, OpeningResult)>, AnalysisError>(AnalysisError::FenTagMissing)
            ==> exists|j: int| 0 <= j < games@.len() && fen_tag_count(games@[j].tags@) == 0,
        res == Err::<Vec<(String, OpeningResult)>, AnalysisError>(AnalysisError::TooManyFenTags)
            ==> exists|j: int| 0 <= j < games@.len() && fen_tag_count(games@[j].tags@) >= 2,
        res == Err::<Vec<(String, OpeningResult)>, AnalysisError>(AnalysisError::BadGameTermination)
            ==> exists|j: int|
            0 <= j < games@.len() && games@[j].termination == Termination::Other,
{
    let labelled = match label_games(games) {
        Ok(l) => l,
        Err(e) => {
            return Err(e);
        },
    };
    let out = accumulate_openings(&labelled);
    proof {
        let m = spec_labels(games@);
        assert(m.len() == labelled@.len());
        assert forall|j: int| 0 <= j < labelled@.len() implies (#[trigger] m[j]).0 == labelled@[
            j].0@ && m[j].1 == labelled@[j].1 by {
            assert(m[j] == (fen_value(games@[j].tags@), games@[j].termination));
        }
        assert forall|k: int| 0 <= k < out@.len() implies {
            let e = #[trigger] out@[k];
            &&& e.1.white_win_count == count_games(m, e.0@, Termination::WhiteWins)
            &&& e.1.draw_count == count_games(m, e.0@, Termination::Draw)
            &&& e.1.black_win_count == count_games(m, e.0@, Termination::BlackWins)
        } by {
            lemma_count_bridge(labelled@, m, out@[k].0@, Termination::WhiteWins);
            lemma_count_bridge(labelled@, m, out@[k].0@, Termination::Draw);
            lemma_count_bridge(labelled@, m, out@[k].0@, Termination::BlackWins);
        }
        assert forall|j: int| 0 <= j < games@.len() implies opening_listed(
            fen_value((#[trigger] games@[j]).tags@),
            out@,
        ) by {
            assert(opening_listed(labelled@[j].0@, out@));
        }
        assert forall|k: int| 0 <= k < out@.len() implies opening_from_games(
            (#[trigger] out@[k]).0@,
            games@,
        ) by {
            assert(opening_sourced(out@[k].0@, labelled@, labelled@.len() as int));
            let p: int = choose|p: int|
                0 <= p < labelled@.len() && (#[trigger] labelled@[p]).0@ == out@[k].0@;
            assert(fen_value(games@[p].tags@) == out@[k].0@);
        }
    }
    Ok(out)
}

/// How many results of the list equal this one.
pub open spec fn occurrence_count(s: Seq<OpeningResult>, r: OpeningResult) -> int
    decreases s.len(),
{
    if s.len() == 0 {
        0
    } else {
        occurrence_count(s.drop_last(), r) + if s.last() == r {
            1int
        } else {
            0int
        }
    }
}

proof fn lemma_occurrence_count_bounds(s: Seq<OpeningResult>, r: OpeningResult)
    ensures
        0 <= occurrence_count(s, r) <= s.len(),
    decreases s.len(),
{
    if s.len() > 0 {
        lemma_occurrence_count_bounds(s.drop_last(), r);
    }
}

/// A triple that occurs nowhere in the list tallies to zero.
proof fn lemma_occurrence_count_zero(s: Seq<OpeningResult>, r: OpeningResult)
    requires
        forall|p: int| 0 <= p < s.len() ==> (#[trigger] s[p]) != r,
    ensures
        occurrence_count(s, r) == 0,
    decreases s.len(),
{
    if s.len() > 0 {
        assert(forall|p: int|
            0 <= p < s.drop_last().len() ==> (#[trigger] s.drop_last()[p]) == s[p]);
        lemma_occurrence_count_zero(s.drop_last(), r);
        assert(s.last() == s[s.len() - 1]);
    }
}

/// Some tallied entry carries this triple.
pub open spec fn result_listed(r: OpeningResult, out: Seq<(OpeningResult, u32)>) -> bool {
    exists|k: int| 0 <= k < out.len() && (#[trigger] out[k]).0 == r
}

/// Some result among the first `upto` equals this triple.
pub open spec fn result_sourced(r: OpeningResult, results: Seq<OpeningResult>, upto: int) -> bool {
    exists|p: int| 0 <= p < upto && (#[trigger] results[p]) == r
}

proof fn lemma_result_listed_extend(
    r: OpeningResult,
    before: Seq<(OpeningResult, u32)>,
    after: Seq<(OpeningResult, u32)>,
)
    requires
        result_listed(r, before),
        after.len() >= before.len(),
        forall|k: int| 0 <= k < before.len() ==> (#[trigger] after[k]).0 == before[k].0,
    ensures
        result_listed(r, after),
{
    let k: int = choose|k: int| 0 <= k < before.len() && (#[trigger] before[k]).0 == r;
    assert(after[k].0 == r);
}

/// Tallies how often each distinct win/draw/loss triple occurs among the
/// openings: every triple of the input appears exactly once, with its
/// number of occurrences.
pub fn tally_results(results: &Vec<OpeningResult>) -> (out: Vec<(OpeningResult, u32)>)
    requires
        results@.len() <= u32::MAX,
    ensures
        forall|p: int, q: int|
            0 <= p < q < out@.len() ==> (#[trigger] out@[p]).0 != (#[trigger] out@[q]).0,
        forall|k: int|
            0 <= k < out@.len() ==> (#[trigger] out@[k]).1 == occurrence_count(
                results@,
                out@[k].0,
            ) && out@[k].1 >= 1,
        forall|j: int| 0 <= j < results@.len() ==> result_listed(#[trigger] results@[j], out@),
        forall|k: int|
            0 <= k < out@.len() ==> result_sourced(
                (#[trigger] out@[k]).0,
                results@,
                results@.len() as int,
            ),
{
    let ghost l = results@;
    let mut out: Vec<(OpeningResult, u32)> = Vec::new();
    let mut j: usize = 0;
    while j < results.len()
        invariant
            0 <= j <= l.len(),
            l == results@,
            l.len() <= u32::MAX,
            forall|p: int, q: int|
                0 <= p < q < out@.len() ==> (#[trigger] out@[p]).0 != (#[trigger] out@[q]).0,
            forall|k: int|
                0 <= k < out@.len() ==> (#[trigger] out@[k]).1 == occurrence_count(
                    l.take(j as int),
                    out@[k].0,
                ) && out@[k].1 >= 1,
            forall|p: int| 0 <= p < j ==> result_listed(#[trigger] l[p], out@),
            forall|k: int|
                0 <= k < out@.len() ==> result_sourced((#[trigger] out@[k]).0, l, j as int),
        decreases l.len() - j,
    {
        let ghost rj = l[j as int];
        let mut idx: usize = 0;
        let mut found: bool = false;
        while idx < out.len() && !found
            invariant
                0 <= idx <= out@.len(),
                0 <= j < l.len(),
                l == results@,
                rj == l[j as int],
                !found ==> forall|p: int| 0 <= p < idx ==> (#[trigger] out@[p]).0 != rj,
                found ==> 0 <= idx < out@.len() && out@[idx as int].0 == rj,
            decreases out@.len() - idx + if found {
                0int
            } else {
                1int
            },
        {
            if out[idx].0 == results[j] {
                found = true;
            } else {
                idx = idx + 1;
            }
        }
        proof {
            assert(l.take(j + 1).drop_last() =~= l.take(j as int));
            assert(l.take(j + 1).last() == l[j as int]);
            lemma_occurrence_count_bounds(l.take(j as int), rj);
            assert(l.take(j as int).len() == j);
        }
        if found {
            let ghost oldout = out@;
            let cur = out[idx];
            out[idx] = (cur.0, cur.1 + 1);
            proof {
                assert(out@ == oldout.update(idx as int, (cur.0, (cur.1 + 1) as u32)));
                assert forall|k: int| 0 <= k < oldout.len() implies (#[trigger] out@[k]).0
                    == oldout[k].0 by {}
                assert forall|k: int| 0 <= k < out@.len() && k != idx implies (
                #[trigger] out@[k]).0 != rj by {
                    if k < idx {
                        assert(oldout[k].0 != oldout[idx as int].0);
                    } else {
                        assert(oldout[idx as int].0 != oldout[k].0);
                    }
                }
                assert forall|p: int| 0 <= p < j + 1 implies result_listed(
                    #[trigger] l[p],
                    out@,
                ) by {
                    if p < j {
                        lemma_result_listed_extend(l[p], oldout, out@);
                    } else {
                        assert(out@[idx as int].0 == rj);
                    }
                }
                assert forall|k: int| 0 <= k < out@.len() implies result_sourced(
                    (#[trigger] out@[k]).0,
                    l,
                    j + 1,
                ) by {
                    assert(result_sourced(oldout[k].0, l, j as int));
                    let p: int = choose|p: int| 0 <= p < j && (#[trigger] l[p]) == oldout[k].0;
                    assert(0 <= p < j + 1 && l[p] == out@[k].0);
                }
            }
        } else {
            proof {
                assert(idx == out@.len());
                assert forall|p: int| 0 <= p < j implies (#[trigger] l.take(j as int)[p])
                    != rj by {
                    assert(l.take(j as int)[p] == l[p]);
                    assert(result_listed(l[p], out@));
                    let k: int = choose|k: int| 0 <= k < out@.len() && (#[trigger] out@[k]).0 == l[p];
                    assert(out@[k].0 != rj);
                }
                lemma_occurrence_count_zero(l.take(j as int), rj);
            }
            let ghost oldout = out@;
            out.push((results[j], 1));
            proof {
                assert(out@ == oldout.push((rj, 1u32)));
                assert(out@[oldout.len() as int].0 == rj);
                assert forall|p: int| 0 <= p < j + 1 implies result_listed(
                    #[trigger] l[p],
                    out@,
                ) by {
                    if p < j {
                        lemma_result_listed_extend(l[p], oldout, out@);
                    } else {
                        assert(out@[oldout.len() as int].0 == l[p]);
                    }
                }
                assert forall|k: int| 0 <= k < out@.len() implies result_sourced(
                    (#[trigger] out@[k]).0,
                    l,
                    j + 1,
                ) by {
                    if k < oldout.len() {
                        assert(result_sourced(oldout[k].0, l, j as int));
                        let p: int = choose|p: int| 0 <= p < j && (#[trigger] l[p]) == oldout[k].0;
                        assert(0 <= p < j + 1 && l[p] == out@[k].0);
                    } else {
                        assert(l[j as int] == out@[k].0);
                    }
                }
            }
        }
        j = j + 1;
    }
    proof {
        assert(l.take(l.len() as int) =~= l);
    }
    out
}

} // verus!
