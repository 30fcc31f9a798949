//! Opening-book decisions over the Lichess Opening Explorer: the request it
//! is sent, what its reply means, and the verdict on a move. The transport,
//! the cache and the clock stay with the caller; this module decides.

use vstd::prelude::*;
use crate::position::{Position, parse_move, play, spec_parse_move, spec_play, uci_parses, uci_reads};
use crate::board::Color;
use crate::text::{chars_of, push_decimal, push_str, string_from_chars, trim, trim_end_char};
use crate::types::OpeningInfo;
use vstd::string::StringSliceAdditionalSpecFns;

verus! {

/// Root of the Explorer API; endpoints are `{base}/masters` and `{base}/lichess`.
pub const DEFAULT_BASE_URL: &'static str = "https://explorer.lichess.ovh";

/// Environment variable that overrides [`DEFAULT_BASE_URL`].
pub const BASE_URL_ENV: &'static str = "KIBITZ_BOOK_URL";

/// The Explorer root to use, given the value of [`BASE_URL_ENV`]: that value
/// trimmed when it is set and not blank, else the default.
pub fn base_url_from(env_value: Option<&str>) -> (r: String)
    ensures
        r@ == (match env_value {
            Some(v) => if trim(v@).len() > 0 {
                trim(v@)
            } else {
                DEFAULT_BASE_URL@
            },
            None => DEFAULT_BASE_URL@,
        }),
{
    match env_value {
        Some(v) => {
            let t = crate::text::trim_str(v);
            if t.as_str().unicode_len() > 0 {
                t
            } else {
                DEFAULT_BASE_URL.to_owned()
            }
        },
        None => DEFAULT_BASE_URL.to_owned(),
    }
}

/// Which database is asked.
#[derive(Debug, Clone, Copy, PartialEq, Eq, Structural)]
pub enum Database {
    /// `{base}/masters`
    Masters,
    /// `{base}/lichess`
    Lichess,
}

pub open spec fn database_name(d: Database) -> Seq<char> {
    match d {
        Database::Masters => "masters"@,
        Database::Lichess => "lichess"@,
    }
}

impl Database {
    /// The database a setting selects: `lichess`, or masters for anything else.
    pub fn from_setting(value: Option<&str>) -> (r: Database)
        ensures
            r == (if value matches Some(v) && v@ == "lichess"@ {
                Database::Lichess
            } else {
                Database::Masters
            }),
    {
        match value {
            Some(v) => if crate::text::str_eq(v, "lichess") {
                Database::Lichess
            } else {
                Database::Masters
            },
            None => Database::Masters,
        }
    }

    pub fn as_str(self) -> (r: &'static str)
        ensures
            r@ == database_name(self),
    {
        match self {
            Database::Masters => "masters",
            Database::Lichess => "lichess",
        }
    }
}

/// How many continuations are asked for; the API's own default of 12 can cut
/// off a perfectly ordinary sideline.
pub const DEFAULT_MOVES: u32 = 30;
/// Silence after a rate limit, in seconds.
pub const DEFAULT_COOLDOWN_SECS: u64 = 60;
/// Silence after an authorisation failure, in seconds.
pub const DEFAULT_UNAVAILABLE_COOLDOWN_SECS: u64 = 3600;
/// Moves played fewer times than this do not count as book.
pub const DEFAULT_MIN_GAMES: u64 = 10;

#[derive(Debug, Clone, Copy, PartialEq, Eq, Structural)]
pub struct BookConfig {
    pub database: Database,
    /// Minimum game count for a move to count as book.
    pub min_games: u64,
    /// Seconds without requests after a rate limit (a longer `Retry-After` wins).
    pub cooldown_secs: u64,
    /// Seconds without requests after an authorisation failure.
    pub unavailable_cooldown_secs: u64,
    /// How many of the most common continuations to ask for.
    pub moves: u32,
}

impl BookConfig {
    /// The default settings for a database.
    pub fn for_database(database: Database) -> (r: BookConfig)
        ensures
            r == (BookConfig {
                database,
                min_games: DEFAULT_MIN_GAMES,
                cooldown_secs: DEFAULT_COOLDOWN_SECS,
                unavailable_cooldown_secs: DEFAULT_UNAVAILABLE_COOLDOWN_SECS,
                moves: DEFAULT_MOVES,
            }),
    {
        BookConfig {
            database,
            min_games: DEFAULT_MIN_GAMES,
            cooldown_secs: DEFAULT_COOLDOWN_SECS,
            unavailable_cooldown_secs: DEFAULT_UNAVAILABLE_COOLDOWN_SECS,
            moves: DEFAULT_MOVES,
        }
    }
}

/// The parts of an Explorer response that are used.
#[derive(Debug, Clone, PartialEq, Eq)]
pub struct ExplorerResponse {
    pub opening: Option<ExplorerOpening>,
    pub moves: Vec<ExplorerMove>,
    pub white: u64,
    pub draws: u64,
    pub black: u64,
}

#[derive(Debug, Clone, PartialEq, Eq)]
pub struct ExplorerOpening {
    pub eco: String,
    pub name: String,
}

#[derive(Debug, Clone, PartialEq, Eq)]
pub struct ExplorerMove {
    pub uci: String,
    pub san: String,
    pub white: u64,
    pub draws: u64,
    pub black: u64,
    /// Mean rating of the players who chose the move, when reported.
    pub average_rating: Option<u32>,
}

/// The games in which a move was played: won by either side or drawn.
pub open spec fn games_played(m: ExplorerMove) -> int {
    m.white + m.draws + m.black
}

impl ExplorerMove {
    /// Games in which the move was played.
    pub fn total(&self) -> (r: u64)
        requires
            self.white + self.draws + self.black <= u64::MAX,
        ensures
            r == self.white + self.draws + self.black,
            r == games_played(*self),
    {
        self.white + self.draws + self.black
    }
}

impl ExplorerResponse {
    /// Games that reached the position.
    pub fn total(&self) -> (r: u64)
        requires
            self.white + self.draws + self.black <= u64::MAX,
        ensures
            r == self.white + self.draws + self.black,
    {
        self.white + self.draws + self.black
    }

    /// Whether the database knows the position at all: some games, or some
    /// continuations.
    pub fn is_known(&self) -> (r: bool)
        requires
            self.white + self.draws + self.black <= u64::MAX,
        ensures
            r == (self.white + self.draws + self.black > 0 || self.moves@.len() > 0),
    {
        self.total() > 0 || self.moves.len() > 0
    }
}

/// The verdict on a move.
#[derive(Debug, Clone, PartialEq, Eq)]
pub enum BookVerdict {
    /// Theory: neither analysis nor explanation is needed.
    InBook(OpeningInfo),
    /// The move that left the book.
    LeftBook(Option<OpeningInfo>),
    /// The position is not in the database at all.
    OutOfBook,
}

/// One HTTP reply, reduced to what the retry logic needs.
#[derive(Debug, Clone, PartialEq, Eq)]
pub struct HttpReply {
    pub status: u16,
    /// `Retry-After` in seconds, when the header holds a number.
    pub retry_after_secs: Option<u64>,
    pub body: String,
}

#[derive(Debug, Clone, PartialEq, Eq)]
pub enum BookError {
    Http(String),
    Store(String),
}

impl BookError {
    /// The error as a sentence.
    pub fn message(&self) -> (r: String)
        ensures
            r@ == (match *self {
                BookError::Http(d) => "explorer api error: "@ + d@,
                BookError::Store(d) => "store error: "@ + d@,
            }),
    {
        let mut out: Vec<char> = Vec::new();
        match self {
            BookError::Http(d) => {
                push_str(&mut out, "explorer api error: ");
                push_str(&mut out, d.as_str());
            },
            BookError::Store(d) => {
                push_str(&mut out, "store error: ");
                push_str(&mut out, d.as_str());
            },
        }
        string_from_chars(&out)
    }
}

/// ASCII letters compared without case.
pub open spec fn eq_ignore_ascii_case(a: Seq<char>, b: Seq<char>) -> bool {
    a.len() == b.len() && forall|i: int| 0 <= i < a.len() ==> crate::lang::ascii_lower(#[trigger] a[i]) == crate::lang::ascii_lower(b[i])
}

fn eq_ignore_case(a: &str, b: &str) -> (r: bool)
    ensures
        r == eq_ignore_ascii_case(a@, b@),
{
    let x = chars_of(a);
    let y = chars_of(b);
    if x.len() != y.len() {
        return false;
    }
    let mut i: usize = 0;
    while i < x.len()
        invariant
            x@ == a@,
            y@ == b@,
            x@.len() == y@.len(),
            i <= x@.len(),
            forall|k: int| 0 <= k < i ==> crate::lang::ascii_lower(#[trigger] x@[k]) == crate::lang::ascii_lower(y@[k]),
        decreases x.len() - i,
    {
        if lower_of(x[i]) != lower_of(y[i]) {
            return false;
        }
        i += 1;
    }
    true
}

fn lower_of(c: char) -> (r: char)
    ensures
        r == crate::lang::ascii_lower(c),
{
    if 'A' <= c && c <= 'Z' {
        ((c as u8) + 32) as char
    } else {
        c
    }
}

/// The first continuation whose UCI matches `uci`, ignoring case.
pub open spec fn first_match(moves: Seq<ExplorerMove>, uci: Seq<char>, i: int) -> Option<int>
    decreases moves.len() - i,
{
    if i < 0 || i >= moves.len() {
        None
    } else if eq_ignore_ascii_case(moves[i].uci@, uci) {
        Some(i)
    } else {
        first_match(moves, uci, i + 1)
    }
}

/// The opening of a response with `matched_plies`; the very first plies have
/// no named opening and report empty strings.
pub open spec fn spec_opening_info(resp: ExplorerResponse, matched_plies: u32) -> (Seq<char>, Seq<char>, u32) {
    match resp.opening {
        Some(o) => (o.eco@, o.name@, matched_plies),
        None => (seq![], seq![], matched_plies),
    }
}

pub open spec fn info_view(i: OpeningInfo) -> (Seq<char>, Seq<char>, u32) {
    (i.eco@, i.name@, i.matched_plies)
}

pub fn opening_info(resp: &ExplorerResponse, matched_plies: u32) -> (r: OpeningInfo)
    ensures
        info_view(r) == spec_opening_info(*resp, matched_plies),
{
    match &resp.opening {
        Some(o) => OpeningInfo { eco: o.eco.clone(), name: o.name.clone(), matched_plies },
        None => OpeningInfo { eco: String::new(), name: String::new(), matched_plies },
    }
}

/// Every count of a response fits its sums.
pub open spec fn counts_fit(resp: ExplorerResponse) -> bool {
    &&& resp.white + resp.draws + resp.black <= u64::MAX
    &&& forall|i: int| 0 <= i < resp.moves@.len() ==> #[trigger] resp.moves@[i].white + resp.moves@[i].draws + resp.moves@[i].black <= u64::MAX
}

/// The verdict on playing `uci` where a response came back: out of book for
/// an unknown position; in book (matched through `ply + 1`) when the first
/// continuation with that UCI was played at least `min_games` times; else
/// the move left the book, with the opening reached so far when the
/// position has one.
pub open spec fn spec_verdict(resp: ExplorerResponse, uci: Seq<char>, ply: u32, min_games: u64) -> Option<(u8, Option<(Seq<char>, Seq<char>, u32)>)> {
    if !(resp.white + resp.draws + resp.black > 0 || resp.moves@.len() > 0) {
        None
    } else {
        match first_match(resp.moves@, uci, 0) {
            Some(i) if resp.moves@[i].white + resp.moves@[i].draws + resp.moves@[i].black >= min_games => Some(
                (0u8, Some(spec_opening_info(resp, (ply + 1) as u32))),
            ),
            _ => Some(
                (
                    1u8,
                    match resp.opening {
                        Some(_) => Some(spec_opening_info(resp, ply)),
                        None => None,
                    },
                ),
            ),
        }
    }
}

/// A move is theory exactly when the position is known and the move, as the
/// Explorer lists it, was played in at least `min_games` games, counting wins
/// for either side and draws (`ExplorerMove::total`). Theory is credited one
/// more matched ply than the position had, under the position's opening
/// (empty names where it has none); a move that leaves the book keeps the
/// position's count and reports the opening only where the position has one.
/// A position the Explorer does not know gives no verdict at all.
pub proof fn lemma_in_book_iff_enough_games(resp: ExplorerResponse, uci: Seq<char>, ply: u32, min_games: u64)
    ensures
        !(resp.white + resp.draws + resp.black > 0 || resp.moves@.len() > 0) ==> spec_verdict(resp, uci, ply, min_games) is None,
        (resp.white + resp.draws + resp.black > 0 || resp.moves@.len() > 0) ==> {
            &&& spec_verdict(resp, uci, ply, min_games) matches Some((tag, info))
            &&& (tag == 0u8) <==> (first_match(resp.moves@, uci, 0) matches Some(i) && games_played(resp.moves@[i]) >= min_games)
            &&& tag == 0u8 ==> info == Some(
                (
                    match resp.opening { Some(o) => o.eco@, None => Seq::<char>::empty() },
                    match resp.opening { Some(o) => o.name@, None => Seq::<char>::empty() },
                    (ply + 1) as u32,
                ),
            )
            &&& tag != 0u8 ==> tag == 1u8 && info == match resp.opening {
                Some(o) => Some((o.eco@, o.name@, ply)),
                None => None,
            }
        },
{
}

pub open spec fn verdict_view(v: BookVerdict) -> Option<(u8, Option<(Seq<char>, Seq<char>, u32)>)> {
    match v {
        BookVerdict::OutOfBook => None,
        BookVerdict::InBook(i) => Some((0u8, Some(info_view(i)))),
        BookVerdict::LeftBook(o) => Some(
            (
                1u8,
                match o {
                    Some(i) => Some(info_view(i)),
                    None => None,
                },
            ),
        ),
    }
}

/// The verdict on playing `uci` in a position the Explorer answered for;
/// `ply` is the number of plies already played.
pub fn verdict(resp: &ExplorerResponse, uci: &str, ply: u32, min_games: u64) -> (r: BookVerdict)
    requires
        counts_fit(*resp),
        ply < u32::MAX,
    ensures
        verdict_view(r) == spec_verdict(*resp, uci@, ply, min_games),
{
    if !resp.is_known() {
        return BookVerdict::OutOfBook;
    }
    let mut i: usize = 0;
    while i < resp.moves.len()
        invariant
            i <= resp.moves@.len(),
            first_match(resp.moves@, uci@, 0) == first_match(resp.moves@, uci@, i as int),
        ensures
            i <= resp.moves@.len(),
            i < resp.moves@.len() ==> first_match(resp.moves@, uci@, 0) == Some(i as int),
            i == resp.moves@.len() ==> first_match(resp.moves@, uci@, 0) is None,
        decreases resp.moves.len() - i,
    {
        if eq_ignore_case(resp.moves[i].uci.as_str(), uci) {
            break;
        }
        i += 1;
    }
    if i < resp.moves.len() && resp.moves[i].total() >= min_games {
        BookVerdict::InBook(opening_info(resp, ply + 1))
    } else {
        match &resp.opening {
            Some(_) => BookVerdict::LeftBook(Some(opening_info(resp, ply))),
            None => BookVerdict::LeftBook(None),
        }
    }
}

/// Plies played to reach a position, from its move counters.
pub fn ply_of(pos: &Position) -> (r: u32)
    requires
        1 <= pos.fullmoves,
        (pos.fullmoves - 1) * 2 + 1 <= u32::MAX,
    ensures
        r == (pos.fullmoves - 1) * 2 + (if pos.turn == Color::Black { 1int } else { 0int }),
{
    (pos.fullmoves - 1) * 2 + if matches!(pos.turn, Color::Black) { 1 } else { 0 }
}

/// Play a UCI move: an error naming the move when it does not read as UCI,
/// or is not legal in the position.
pub open spec fn spec_play_uci(pos: crate::position::PositionView, uci: Seq<char>) -> Result<crate::position::PositionView, Seq<char>> {
    if !uci_reads(uci) {
        Err("invalid uci move: "@ + uci)
    } else {
        match spec_parse_move(pos, uci, false) {
            None => Err("illegal move: "@ + uci),
            Some(mv) => match spec_play(pos, mv) {
                Some(p) => Ok(p),
                None => Err("illegal move: "@ + uci),
            },
        }
    }
}

pub fn play_uci(pos: &Position, uci: &str) -> (r: Result<Position, BookError>)
    ensures
        (match r {
            Ok(p) => Ok(p@),
            Err(BookError::Http(m)) => Err(m@),
            Err(BookError::Store(m)) => Err(seq!['!']),
        }) == spec_play_uci(pos@, uci@),
        r matches Ok(p) ==> p.wf(),
        r matches Err(e) ==> e is Http,
{
    if !uci_parses(uci) {
        return Err(BookError::Http(prefixed("invalid uci move: ", uci)));
    }
    match parse_move(pos, uci, false) {
        None => Err(BookError::Http(prefixed("illegal move: ", uci))),
        Some(mv) => match play(pos, &mv) {
            Some(p) => Ok(p),
            None => Err(BookError::Http(prefixed("illegal move: ", uci))),
        },
    }
}

fn prefixed(a: &str, b: &str) -> (r: String)
    ensures
        r@ == a@ + b@,
{
    let mut out: Vec<char> = Vec::new();
    push_str(&mut out, a);
    push_str(&mut out, b);
    string_from_chars(&out)
}

/// Bytes left alone by the percent-encoding: letters, digits and `-_.~`.
pub open spec fn unreserved(b: u8) -> bool {
    (65 <= b <= 90) || (97 <= b <= 122) || (48 <= b <= 57) || b == 45 || b == 95 || b == 46 || b == 126
}

pub open spec fn hex_digit(d: int) -> char {
    if d == 0 { '0' }
    else if d == 1 { '1' }
    else if d == 2 { '2' }
    else if d == 3 { '3' }
    else if d == 4 { '4' }
    else if d == 5 { '5' }
    else if d == 6 { '6' }
    else if d == 7 { '7' }
    else if d == 8 { '8' }
    else if d == 9 { '9' }
    else if d == 10 { 'A' }
    else if d == 11 { 'B' }
    else if d == 12 { 'C' }
    else if d == 13 { 'D' }
    else if d == 14 { 'E' }
    else { 'F' }
}

fn hex_digit_of(d: u8) -> (c: char)
    requires
        d < 16,
    ensures
        c == hex_digit(d as int),
{
    if d == 0 { '0' }
    else if d == 1 { '1' }
    else if d == 2 { '2' }
    else if d == 3 { '3' }
    else if d == 4 { '4' }
    else if d == 5 { '5' }
    else if d == 6 { '6' }
    else if d == 7 { '7' }
    else if d == 8 { '8' }
    else if d == 9 { '9' }
    else if d == 10 { 'A' }
    else if d == 11 { 'B' }
    else if d == 12 { 'C' }
    else if d == 13 { 'D' }
    else if d == 14 { 'E' }
    else { 'F' }
}

/// One byte, percent-encoded unless unreserved (upper-case hex).
pub open spec fn encode_byte(b: u8) -> Seq<char> {
    if unreserved(b) {
        seq![b as char]
    } else {
        seq!['%', hex_digit((b / 16) as int), hex_digit((b % 16) as int)]
    }
}

pub open spec fn percent_encoded(bs: Seq<u8>) -> Seq<char>
    decreases bs.len(),
{
    if bs.len() == 0 {
        seq![]
    } else {
        percent_encoded(bs.drop_last()) + encode_byte(bs.last())
    }
}

/// Percent-encode a FEN for a query string: every UTF-8 byte but the
/// unreserved ones becomes `%XX`.
pub fn percent_encode(s: &str) -> (r: String)
    ensures
        r@ == percent_encoded(s.spec_bytes()),
{
    let bytes = s.as_bytes();
    let mut out: Vec<char> = Vec::new();
    let mut i: usize = 0;
    while i < bytes.len()
        invariant
            bytes@ == s.spec_bytes(),
            i <= bytes@.len(),
            out@ == percent_encoded(bytes@.subrange(0, i as int)),
        decreases bytes.len() - i,
    {
        let b = bytes[i];
        let ghost pre = bytes@.subrange(0, i as int);
        assert(bytes@.subrange(0, i as int + 1).drop_last() =~= pre);
        if (65 <= b && b <= 90) || (97 <= b && b <= 122) || (48 <= b && b <= 57) || b == 45 || b == 95 || b == 46
            || b == 126 {
            out.push(b as char);
        } else {
            out.push('%');
            out.push(hex_digit_of(b / 16));
            out.push(hex_digit_of(b % 16));
        }
        i += 1;
    }
    assert(bytes@.subrange(0, bytes@.len() as int) =~= bytes@);
    string_from_chars(&out)
}

/// The request URL for a position: `{base}/{db}?fen=..&moves=..&topGames=0`,
/// plus `&recentGames=0` for the Lichess database. The base URL is given
/// without a trailing slash.
pub open spec fn spec_request_url(base: Seq<char>, config: BookConfig, fen_bytes: Seq<u8>) -> Seq<char> {
    let core = base + "/"@ + database_name(config.database) + "?fen="@ + percent_encoded(fen_bytes) + "&moves="@
        + crate::text::decimal(config.moves as nat) + "&topGames=0"@;
    if config.database == Database::Lichess {
        core + "&recentGames=0"@
    } else {
        core
    }
}

pub fn request_url(base: &str, config: &BookConfig, fen: &str) -> (r: String)
    ensures
        r@ == spec_request_url(base@, *config, fen.spec_bytes()),
{
    let mut out: Vec<char> = Vec::new();
    push_str(&mut out, base);
    push_str(&mut out, "/");
    push_str(&mut out, config.database.as_str());
    push_str(&mut out, "?fen=");
    let enc = percent_encode(fen);
    push_str(&mut out, enc.as_str());
    push_str(&mut out, "&moves=");
    push_decimal(&mut out, config.moves as u64);
    push_str(&mut out, "&topGames=0");
    if matches!(config.database, Database::Lichess) {
        push_str(&mut out, "&recentGames=0");
    }
    string_from_chars(&out)
}

/// A base URL without its trailing slashes.
pub fn trim_base_url(base: &str) -> (r: String)
    ensures
        r@ == trim_end_char(base@, '/'),
{
    crate::text::trim_end_char_str(base, '/')
}

/// What a reply means for the book.
#[derive(Debug, Clone, PartialEq, Eq)]
pub enum ReplyOutcome {
    /// A response body to parse and cache.
    Body(String),
    /// Stop asking for `wait_secs`; the position counts as out of book.
    Cooldown { wait_secs: u64, status: u16, reason: &'static str },
    /// An error to report.
    Failed(BookError),
}

/// A reply read by status: a body for 2xx; a cooldown for a rate limit (the
/// longer of `Retry-After` and the configured cooldown) and for an
/// authorisation failure (the configured unavailable cooldown); an error
/// quoting the status and at most 200 characters of the body otherwise.
pub open spec fn spec_reply_outcome(reply: HttpReply, config: BookConfig) -> (u8, u64, Seq<char>) {
    if 200 <= reply.status <= 299 {
        (0u8, 0u64, reply.body@)
    } else if reply.status == 429 {
        let asked = match reply.retry_after_secs {
            Some(s) => s,
            None => 0u64,
        };
        (1u8, if asked > config.cooldown_secs { asked } else { config.cooldown_secs }, "rate limited"@)
    } else if reply.status == 401 || reply.status == 403 {
        (1u8, config.unavailable_cooldown_secs, "unavailable"@)
    } else {
        (
            2u8,
            0u64,
            "status "@ + crate::text::decimal(reply.status as nat) + ": "@ + reply.body@.take(
                if reply.body@.len() < 200 { reply.body@.len() as int } else { 200 },
            ),
        )
    }
}

pub open spec fn outcome_view(o: ReplyOutcome, status: u16) -> (u8, u64, Seq<char>) {
    match o {
        ReplyOutcome::Body(b) => (0u8, 0u64, b@),
        ReplyOutcome::Cooldown { wait_secs, status: s, reason } => if s == status {
            (1u8, wait_secs, reason@)
        } else {
            (3u8, 0u64, seq![])
        },
        ReplyOutcome::Failed(BookError::Http(m)) => (2u8, 0u64, m@),
        ReplyOutcome::Failed(BookError::Store(_)) => (3u8, 0u64, seq![]),
    }
}

pub fn reply_outcome(reply: HttpReply, config: &BookConfig) -> (r: ReplyOutcome)
    ensures
        outcome_view(r, reply.status) == spec_reply_outcome(reply, *config),
{
    let status = reply.status;
    if 200 <= status && status <= 299 {
        return ReplyOutcome::Body(reply.body);
    }
    if status == 429 {
        let asked = match reply.retry_after_secs {
            Some(s) => s,
            None => 0,
        };
        let wait = if asked > config.cooldown_secs { asked } else { config.cooldown_secs };
        return ReplyOutcome::Cooldown { wait_secs: wait, status, reason: "rate limited" };
    }
    if status == 401 || status == 403 {
        return ReplyOutcome::Cooldown { wait_secs: config.unavailable_cooldown_secs, status, reason: "unavailable" };
    }
    let body = chars_of(reply.body.as_str());
    let mut out: Vec<char> = Vec::new();
    push_str(&mut out, "status ");
    push_decimal(&mut out, status as u64);
    push_str(&mut out, ": ");
    let ghost head = out@;
    let limit = if body.len() < 200 { body.len() } else { 200 };
    let mut i: usize = 0;
    while i < limit
        invariant
            body@ == reply.body@,
            limit <= body@.len(),
            i <= limit,
            out@ == head + body@.take(i as int),
        decreases limit - i,
    {
        out.push(body[i]);
        assert(body@.take(i as int + 1) =~= body@.take(i as int).push(body@[i as int]));
        i += 1;
    }
    ReplyOutcome::Failed(BookError::Http(string_from_chars(&out)))
}

/// The end of a cooldown after a failure at `now` asking for `wait`: a
/// cooldown already running is never shortened.
pub open spec fn spec_extend_cooldown(current: Option<u64>, now: u64, wait: u64) -> Option<u64> {
    let until = now + wait;
    match current {
        Some(c) => if until > c {
            Some(until as u64)
        } else {
            Some(c)
        },
        None => Some(until as u64),
    }
}

pub fn extend_cooldown(current: Option<u64>, now: u64, wait: u64) -> (r: Option<u64>)
    requires
        now + wait <= u64::MAX,
    ensures
        r == spec_extend_cooldown(current, now, wait),
{
    let until = now + wait;
    match current {
        Some(c) => if until > c {
            Some(until)
        } else {
            Some(c)
        },
        None => Some(until),
    }
}

/// How much of a cooldown is left at `now`; none once it has run out.
pub fn cooldown_remaining(until: Option<u64>, now: u64) -> (r: Option<u64>)
    ensures
        r == (match until {
            Some(u) => if u > now {
                Some((u - now) as u64)
            } else {
                None::<u64>
            },
            None => None::<u64>,
        }),
{
    match until {
        Some(u) => if u > now {
            Some(u - now)
        } else {
            None
        },
        None => None,
    }
}

/// A cooldown never gets shorter: extending it keeps it running at least as
/// long as before, and at least `wait` from `now`.
pub proof fn lemma_cooldown_never_shortens(current: Option<u64>, now: u64, wait: u64)
    requires
        now + wait <= u64::MAX,
    ensures
        spec_extend_cooldown(current, now, wait) matches Some(u) && u >= now + wait && (current matches Some(c) ==> u >= c),
{
}

/// The verdict on playing `uci` in `pos`, given what the Explorer (or the
/// cache) said about the position: none means it could not be asked (a
/// cooldown), which reads as out of book.
pub fn judge(found: Option<&ExplorerResponse>, pos: &Position, uci: &str, min_games: u64) -> (r: BookVerdict)
    requires
        found matches Some(resp) ==> counts_fit(*resp),
        1 <= pos.fullmoves,
        (pos.fullmoves - 1) * 2 + 2 <= u32::MAX,
    ensures
        verdict_view(r) == (match found {
            Some(resp) => spec_verdict(*resp, uci@, ((pos.fullmoves - 1) * 2 + (if pos.turn == Color::Black { 1int } else { 0int })) as u32, min_games),
            None => None,
        }),
{
    match found {
        Some(resp) => verdict(resp, uci, ply_of(pos), min_games),
        None => BookVerdict::OutOfBook,
    }
}

/// Once a move is not theory, every later move is out of book: a game never
/// re-enters the book.
pub open spec fn never_reenters(v: Seq<BookVerdict>) -> bool {
    forall|i: int, j: int| 0 <= i < j < v.len() && !(#[trigger] v[i] is InBook) ==> #[trigger] v[j] is OutOfBook
}

/// Judging a game move by move from its start: only while every move so far
/// was theory is the Explorer asked about the next one.
pub struct LineJudge {
    pos: Position,
    in_book: bool,
    verdicts: Vec<BookVerdict>,
}

impl LineJudge {
    pub closed spec fn wf(&self) -> bool {
        &&& self.pos.wf()
        &&& never_reenters(self.verdicts@)
        &&& (self.in_book <==> forall|i: int| 0 <= i < self.verdicts@.len() ==> #[trigger] self.verdicts@[i] is InBook)
    }

    pub closed spec fn verdicts(&self) -> Seq<BookVerdict> {
        self.verdicts@
    }

    pub closed spec fn position(&self) -> crate::position::PositionView {
        self.pos@
    }

    pub fn new(start: &Position) -> (r: LineJudge)
        requires
            start.wf(),
        ensures
            r.wf(),
            r.verdicts().len() == 0,
            r.position() == start@,
    {
        LineJudge { pos: start.copy(), in_book: true, verdicts: Vec::new() }
    }

    /// Whether the next move needs the Explorer: only while every move so
    /// far was theory.
    pub fn needs_lookup(&self) -> (r: bool)
        requires
            self.wf(),
        ensures
            r == forall|i: int| 0 <= i < self.verdicts().len() ==> #[trigger] self.verdicts()[i] is InBook,
    {
        self.in_book
    }

    /// The position the next move is played in, while the line is in book.
    pub fn current(&self) -> (r: &Position)
        ensures
            r@ == self.position(),
    {
        &self.pos
    }

    /// Record the next move. Past the book nothing is asked and the move is
    /// out of book; otherwise its verdict comes from what the Explorer said,
    /// and an in-book move is played on.
    pub fn record(&mut self, found: Option<&ExplorerResponse>, uci: &str, min_games: u64) -> (r: Result<(), BookError>)
        requires
            old(self).wf(),
            found matches Some(resp) ==> counts_fit(*resp),
            1 <= old(self).position().fullmoves,
            (old(self).position().fullmoves - 1) * 2 + 2 <= u32::MAX,
        ensures
            final(self).wf(),
            r is Ok ==> final(self).verdicts().len() == old(self).verdicts().len() + 1
                && final(self).verdicts().drop_last() == old(self).verdicts(),
            r is Ok && !(forall|i: int| 0 <= i < old(self).verdicts().len() ==> #[trigger] old(self).verdicts()[i] is InBook)
                ==> final(self).verdicts().last() is OutOfBook,
            r is Ok && (forall|i: int| 0 <= i < old(self).verdicts().len() ==> #[trigger] old(self).verdicts()[i] is InBook)
                ==> verdict_view(final(self).verdicts().last()) == (match found {
                Some(resp) => spec_verdict(*resp, uci@, ((old(self).position().fullmoves - 1) * 2 + (if old(self).position().turn == Color::Black { 1int } else { 0int })) as u32, min_games),
                None => None,
            }),
            r is Ok && final(self).verdicts().last() is InBook ==> spec_play_uci(old(self).position(), uci@) == Ok::<crate::position::PositionView, Seq<char>>(final(self).position()),
            r is Ok && !(final(self).verdicts().last() is InBook) ==> final(self).position() == old(self).position(),
            // It fails exactly when a move judged theory cannot be played, and
            // then nothing is recorded.
            r is Err <==> ((forall|i: int| 0 <= i < old(self).verdicts().len() ==> #[trigger] old(self).verdicts()[i] is InBook)
                && ((match found {
                Some(resp) => spec_verdict(*resp, uci@, ((old(self).position().fullmoves - 1) * 2 + (if old(self).position().turn == Color::Black { 1int } else { 0int })) as u32, min_games),
                None => None,
            }) matches Some((0u8, _))) && spec_play_uci(old(self).position(), uci@) is Err),
            r matches Err(e) ==> ((e matches BookError::Http(m) && spec_play_uci(old(self).position(), uci@) == Err::<crate::position::PositionView, Seq<char>>(m@)))
                && final(self).verdicts() == old(self).verdicts() && final(self).position() == old(self).position(),
    {
        let ghost before = self.verdicts@;
        if !self.in_book {
            self.verdicts.push(BookVerdict::OutOfBook);
            assert(self.verdicts@.drop_last() =~= before);
            return Ok(());
        }
        let v = judge(found, &self.pos, uci, min_games);
        let theory = matches!(v, BookVerdict::InBook(_));
        if theory {
            match play_uci(&self.pos, uci) {
                Ok(next) => {
                    self.pos = next;
                },
                Err(e) => {
                    return Err(e);
                },
            }
        } else {
            self.in_book = false;
        }
        self.verdicts.push(v);
        assert(self.verdicts@.drop_last() =~= before);
        Ok(())
    }

    /// The verdicts, one per recorded move.
    pub fn finish(self) -> (r: Vec<BookVerdict>)
        requires
            self.wf(),
        ensures
            r@ == self.verdicts(),
            never_reenters(r@),
    {
        self.verdicts
    }
}

} // verus!
