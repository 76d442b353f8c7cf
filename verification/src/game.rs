//! The game session: the static board, the active piece, the next-piece
//! buffer, score bookkeeping, the gravity timer, and the state machine
//! that sequences Title, Spawning, Playing, Paused and GameOver.

use vstd::prelude::*;

use crate::grid::{Block, GridPosition, board_wf, hit};
use crate::lines::{after_clear, full_rows_below, row_bound, row_full};
use crate::movement::{can_rotate, can_translate};
use crate::score::{ScoreKeeper, spec_points};
use crate::tetromino::{ActivePiece, Shape, spec_blocks, spec_center, spec_color, spec_spawn_cells};

verus! {

/// The five states of the game flow. `Spawning` is transient: entering it
/// clears full rows and spawns the next piece in one synchronous step,
/// which ends in `Playing` or `GameOver`.
#[derive(Clone, Copy, Debug, PartialEq, Eq, Structural)]
pub enum GameState {
    Title,
    Playing,
    Paused,
    Spawning,
    GameOver,
}

/// The resolved, discrete inputs the core consumes. How keys or buttons
/// map to them is a collaborator's concern.
#[derive(Clone, Copy, Debug, PartialEq, Eq, Structural)]
pub enum Action {
    MoveLeft,
    MoveRight,
    MoveDown,
    Rotate,
    HardDrop,
    TogglePause,
    StartGame,
    Reset,
}

/// Highest row an active piece can ever reach: spawning places blocks no
/// higher than one row above the spawn anchor, and a rotation keeps each
/// block within three rows of the anchored rotation center.
pub const PIECE_ROW_LIMIT: i32 = 22;

/// Highest row the rotation center can sit on: the spawn anchor row,
/// since rotation keeps the center in place and every other move is
/// sideways or down.
pub const CENTER_ROW_LIMIT: i32 = 19;

/// Relies on rand::Rng::random_range over `0..7`, which returns a value
/// of that range, drawn uniformly.
#[verifier::external_body]
fn random_index_of_seven() -> (r: usize)
    ensures
        r < 7,
{
    rand::Rng::random_range(&mut rand::rng(), 0..7usize)
}

/// Draws one of the seven shapes at random, with replacement.
pub fn random_shape() -> (s: Shape) {
    match random_index_of_seven() {
        0 => Shape::I,
        1 => Shape::O,
        2 => Shape::T,
        3 => Shape::L,
        4 => Shape::J,
        5 => Shape::S,
        _ => Shape::Z,
    }
}

/// Nine to the `k`-th power.
pub open spec fn pow9(k: int) -> int
    decreases k,
{
    if k <= 0 {
        1
    } else {
        9 * pow9(k - 1)
    }
}

/// Ten to the `k`-th power.
pub open spec fn pow10(k: int) -> int
    decreases k,
{
    if k <= 0 {
        1
    } else {
        10 * pow10(k - 1)
    }
}

/// The gravity period in milliseconds for a level: one second at level
/// one, scaled by nine tenths for each further level — that is,
/// `1000 * (9/10)^(level-1)`, rounded down once and never below one
/// millisecond.
pub open spec fn spec_fall_period_ms(level: int) -> int {
    let raw = 1000 * pow9(level - 1) / pow10(level - 1);
    if raw < 1 {
        1
    } else {
        raw
    }
}

proof fn lemma_pow_pos(k: int)
    ensures
        pow9(k) >= 1,
        pow10(k) >= 1,
        pow9(k) <= pow10(k),
    decreases k,
{
    if k > 0 {
        lemma_pow_pos(k - 1);
    }
}

/// The gravity period never leaves the range of one to a thousand
/// milliseconds; in particular the timer remainder in `advance_post` is
/// always taken by a positive period.
pub proof fn lemma_fall_period_bounds(level: int)
    ensures
        1 <= spec_fall_period_ms(level) <= 1000,
{
    lemma_pow_pos(level - 1);
    let n = pow9(level - 1);
    let d = pow10(level - 1);
    assert(1000 * n / d <= 1000) by (nonlinear_arith)
        requires
            1 <= d,
            n <= d,
    ;
}

/// From level sixty on the scaled period is below two milliseconds, so
/// the clamped period is exactly one.
#[verifier::rlimit(100)]
proof fn lemma_fall_period_tail(k: int)
    requires
        k >= 59,
    ensures
        1000 * pow9(k) < 2 * pow10(k),
        spec_fall_period_ms(k + 1) == 1,
    decreases k,
{
    if k == 59 {
        reveal_with_fuel(pow9, 61);
        reveal_with_fuel(pow10, 61);
        assert(1000 * pow9(59) < 2 * pow10(59));
    } else {
        lemma_fall_period_tail(k - 1);
        lemma_pow_pos(k - 1);
        assert(pow9(k) == 9 * pow9(k - 1));
        assert(pow10(k) == 10 * pow10(k - 1));
    }
    lemma_pow_pos(k);
    let n = 1000 * pow9(k);
    let d = pow10(k);
    assert(0 <= n / d < 2) by (nonlinear_arith)
        requires
            1 <= d,
            0 <= n,
            n < 2 * d,
    ;
}

/// The first fifty-nine gravity periods, computed out: the closed
/// form `1000 * 9^(level-1) / 10^(level-1)`, evaluated one level at
/// a time.
#[verifier::rlimit(100)]
proof fn lemma_fall_period_table()
    ensures
        spec_fall_period_ms(1) == 1000,
        spec_fall_period_ms(2) == 900,
        spec_fall_period_ms(3) == 810,
        spec_fall_period_ms(4) == 729,
        spec_fall_period_ms(5) == 656,
        spec_fall_period_ms(6) == 590,
        spec_fall_period_ms(7) == 531,
        spec_fall_period_ms(8) == 478,
        spec_fall_period_ms(9) == 430,
        spec_fall_period_ms(10) == 387,
        spec_fall_period_ms(11) == 348,
        spec_fall_period_ms(12) == 313,
        spec_fall_period_ms(13) == 282,
        spec_fall_period_ms(14) == 254,
        spec_fall_period_ms(15) == 228,
        spec_fall_period_ms(16) == 205,
        spec_fall_period_ms(17) == 185,
        spec_fall_period_ms(18) == 166,
        spec_fall_period_ms(19) == 150,
        spec_fall_period_ms(20) == 135,
        spec_fall_period_ms(21) == 121,
        spec_fall_period_ms(22) == 109,
        spec_fall_period_ms(23) == 98,
        spec_fall_period_ms(24) == 88,
        spec_fall_period_ms(25) == 79,
        spec_fall_period_ms(26) == 71,
        spec_fall_period_ms(27) == 64,
        spec_fall_period_ms(28) == 58,
        spec_fall_period_ms(29) == 52,
        spec_fall_period_ms(30) == 47,
        spec_fall_period_ms(31) == 42,
        spec_fall_period_ms(32) == 38,
        spec_fall_period_ms(33) == 34,
        spec_fall_period_ms(34) == 30,
        spec_fall_period_ms(35) == 27,
        spec_fall_period_ms(36) == 25,
        spec_fall_period_ms(37) == 22,
        spec_fall_period_ms(38) == 20,
        spec_fall_period_ms(39) == 18,
        spec_fall_period_ms(40) == 16,
        spec_fall_period_ms(41) == 14,
        spec_fall_period_ms(42) == 13,
        spec_fall_period_ms(43) == 11,
        spec_fall_period_ms(44) == 10,
        spec_fall_period_ms(45) == 9,
        spec_fall_period_ms(46) == 8,
        spec_fall_period_ms(47) == 7,
        spec_fall_period_ms(48) == 7,
        spec_fall_period_ms(49) == 6,
        spec_fall_period_ms(50) == 5,
        spec_fall_period_ms(51) == 5,
        spec_fall_period_ms(52) == 4,
        spec_fall_period_ms(53) == 4,
        spec_fall_period_ms(54) == 3,
        spec_fall_period_ms(55) == 3,
        spec_fall_period_ms(56) == 3,
        spec_fall_period_ms(57) == 2,
        spec_fall_period_ms(58) == 2,
        spec_fall_period_ms(59) == 2,
{
    reveal_with_fuel(pow9, 2);
    reveal_with_fuel(pow10, 2);
    assert(pow9(0) == 1);
    assert(pow10(0) == 1);
    assert(1000 * pow9(0) == 1000);
    assert(1000int / 1int == 1000);
    assert(pow9(1) == 9);
    assert(pow10(1) == 10);
    assert(1000 * pow9(1) == 9000);
    assert(9000int / 10int == 900);
    assert(pow9(2) == 81);
    assert(pow10(2) == 100);
    assert(1000 * pow9(2) == 81000);
    assert(81000int / 100int == 810);
    assert(pow9(3) == 729);
    assert(pow10(3) == 1000);
    assert(1000 * pow9(3) == 729000);
    assert(729000int / 1000int == 729);
    assert(pow9(4) == 6561);
    assert(pow10(4) == 10000);
    assert(1000 * pow9(4) == 6561000);
    assert(6561000int / 10000int == 656);
    assert(pow9(5) == 59049);
    assert(pow10(5) == 100000);
    assert(1000 * pow9(5) == 59049000);
    assert(59049000int / 100000int == 590);
    assert(pow9(6) == 531441);
    assert(pow10(6) == 1000000);
    assert(1000 * pow9(6) == 531441000);
    assert(531441000int / 1000000int == 531);
    assert(pow9(7) == 4782969);
    assert(pow10(7) == 10000000);
    assert(1000 * pow9(7) == 4782969000);
    assert(4782969000int / 10000000int == 478);
    assert(pow9(8) == 43046721);
    assert(pow10(8) == 100000000);
    assert(1000 * pow9(8) == 43046721000);
    assert(43046721000int / 100000000int == 430);
    assert(pow9(9) == 387420489);
    assert(pow10(9) == 1000000000);
    assert(1000 * pow9(9) == 387420489000);
    assert(387420489000int / 1000000000int == 387);
    assert(pow9(10) == 3486784401);
    assert(pow10(10) == 10000000000);
    assert(1000 * pow9(10) == 3486784401000);
    assert(3486784401000int / 10000000000int == 348);
    assert(pow9(11) == 31381059609);
    assert(pow10(11) == 100000000000);
    assert(1000 * pow9(11) == 31381059609000);
    assert(31381059609000int / 100000000000int == 313);
    assert(pow9(12) == 282429536481);
    assert(pow10(12) == 1000000000000);
    assert(1000 * pow9(12) == 282429536481000);
    assert(282429536481000int / 1000000000000int == 282);
    assert(pow9(13) == 2541865828329);
    assert(pow10(13) == 10000000000000);
    assert(1000 * pow9(13) == 2541865828329000);
    assert(2541865828329000int / 10000000000000int == 254);
    assert(pow9(14) == 22876792454961);
    assert(pow10(14) == 100000000000000);
    assert(1000 * pow9(14) == 22876792454961000);
    assert(22876792454961000int / 100000000000000int == 228);
    assert(pow9(15) == 205891132094649);
    assert(pow10(15) == 1000000000000000);
    assert(1000 * pow9(15) == 205891132094649000);
    assert(205891132094649000int / 1000000000000000int == 205);
    assert(pow9(16) == 1853020188851841);
    assert(pow10(16) == 10000000000000000);
    assert(1000 * pow9(16) == 1853020188851841000);
    assert(1853020188851841000int / 10000000000000000int == 185);
    assert(pow9(17) == 16677181699666569);
    assert(pow10(17) == 100000000000000000);
    assert(1000 * pow9(17) == 16677181699666569000);
    assert(16677181699666569000int / 100000000000000000int == 166);
    assert(pow9(18) == 150094635296999121);
    assert(pow10(18) == 1000000000000000000);
    assert(1000 * pow9(18) == 150094635296999121000);
    assert(150094635296999121000int / 1000000000000000000int == 150);
    assert(pow9(19) == 1350851717672992089);
    assert(pow10(19) == 10000000000000000000);
    assert(1000 * pow9(19) == 1350851717672992089000);
    assert(1350851717672992089000int / 10000000000000000000int == 135);
    assert(pow9(20) == 12157665459056928801);
    assert(pow10(20) == 100000000000000000000);
    assert(1000 * pow9(20) == 12157665459056928801000);
    assert(12157665459056928801000int / 100000000000000000000int == 121);
    assert(pow9(21) == 109418989131512359209);
    assert(pow10(21) == 1000000000000000000000);
    assert(1000 * pow9(21) == 109418989131512359209000);
    assert(109418989131512359209000int / 1000000000000000000000int == 109);
    assert(pow9(22) == 984770902183611232881);
    assert(pow10(22) == 10000000000000000000000);
    assert(1000 * pow9(22) == 984770902183611232881000);
    assert(984770902183611232881000int / 10000000000000000000000int == 98);
    assert(pow9(23) == 8862938119652501095929);
    assert(pow10(23) == 100000000000000000000000);
    assert(1000 * pow9(23) == 8862938119652501095929000);
    assert(8862938119652501095929000int / 100000000000000000000000int == 88);
    assert(pow9(24) == 79766443076872509863361);
    assert(pow10(24) == 1000000000000000000000000);
    assert(1000 * pow9(24) == 79766443076872509863361000);
    assert(79766443076872509863361000int / 1000000000000000000000000int == 79);
    assert(pow9(25) == 717897987691852588770249);
    assert(pow10(25) == 10000000000000000000000000);
    assert(1000 * pow9(25) == 717897987691852588770249000);
    assert(717897987691852588770249000int / 10000000000000000000000000int == 71);
    assert(pow9(26) == 6461081889226673298932241);
    assert(pow10(26) == 100000000000000000000000000);
    assert(1000 * pow9(26) == 6461081889226673298932241000);
    assert(6461081889226673298932241000int / 100000000000000000000000000int == 64);
    assert(pow9(27) == 58149737003040059690390169);
    assert(pow10(27) == 1000000000000000000000000000);
    assert(1000 * pow9(27) == 58149737003040059690390169000);
    assert(58149737003040059690390169000int / 1000000000000000000000000000int == 58);
    assert(pow9(28) == 523347633027360537213511521);
    assert(pow10(28) == 10000000000000000000000000000);
    assert(1000 * pow9(28) == 523347633027360537213511521000);
    assert(523347633027360537213511521000int / 10000000000000000000000000000int == 52);
    assert(pow9(29) == 4710128697246244834921603689);
    assert(pow10(29) == 100000000000000000000000000000);
    assert(1000 * pow9(29) == 4710128697246244834921603689000);
    assert(4710128697246244834921603689000int / 100000000000000000000000000000int == 47);
    assert(pow9(30) == 42391158275216203514294433201);
    assert(pow10(30) == 1000000000000000000000000000000);
    assert(1000 * pow9(30) == 42391158275216203514294433201000);
    assert(42391158275216203514294433201000int / 1000000000000000000000000000000int == 42);
    assert(pow9(31) == 381520424476945831628649898809);
    assert(pow10(31) == 10000000000000000000000000000000);
    assert(1000 * pow9(31) == 381520424476945831628649898809000);
    assert(381520424476945831628649898809000int / 10000000000000000000000000000000int == 38);
    assert(pow9(32) == 3433683820292512484657849089281);
    assert(pow10(32) == 100000000000000000000000000000000);
    assert(1000 * pow9(32) == 3433683820292512484657849089281000);
    assert(3433683820292512484657849089281000int / 100000000000000000000000000000000int == 34);
    assert(pow9(33) == 30903154382632612361920641803529);
    assert(pow10(33) == 1000000000000000000000000000000000);
    assert(1000 * pow9(33) == 30903154382632612361920641803529000);
    assert(30903154382632612361920641803529000int / 1000000000000000000000000000000000int == 30);
    assert(pow9(34) == 278128389443693511257285776231761);
    assert(pow10(34) == 10000000000000000000000000000000000);
    assert(1000 * pow9(34) == 278128389443693511257285776231761000);
    assert(278128389443693511257285776231761000int / 10000000000000000000000000000000000int == 27);
    assert(pow9(35) == 2503155504993241601315571986085849);
    assert(pow10(35) == 100000000000000000000000000000000000);
    assert(1000 * pow9(35) == 2503155504993241601315571986085849000);
    assert(2503155504993241601315571986085849000int / 100000000000000000000000000000000000int == 25);
    assert(pow9(36) == 22528399544939174411840147874772641);
    assert(pow10(36) == 1000000000000000000000000000000000000);
    assert(1000 * pow9(36) == 22528399544939174411840147874772641000);
    assert(22528399544939174411840147874772641000int / 1000000000000000000000000000000000000int == 22);
    assert(pow9(37) == 202755595904452569706561330872953769);
    assert(pow10(37) == 10000000000000000000000000000000000000);
    assert(1000 * pow9(37) == 202755595904452569706561330872953769000);
    assert(202755595904452569706561330872953769000int / 10000000000000000000000000000000000000int == 20);
    assert(pow9(38) == 1824800363140073127359051977856583921);
    assert(pow10(38) == 100000000000000000000000000000000000000);
    assert(1000 * pow9(38) == 1824800363140073127359051977856583921000);
    assert(1824800363140073127359051977856583921000int / 100000000000000000000000000000000000000int == 18);
    assert(pow9(39) == 16423203268260658146231467800709255289);
    assert(pow10(39) == 1000000000000000000000000000000000000000);
    assert(1000 * pow9(39) == 16423203268260658146231467800709255289000);
    assert(16423203268260658146231467800709255289000int / 1000000000000000000000000000000000000000int == 16);
    assert(pow9(40) == 147808829414345923316083210206383297601);
    assert(pow10(40) == 10000000000000000000000000000000000000000);
    assert(1000 * pow9(40) == 147808829414345923316083210206383297601000);
    assert(147808829414345923316083210206383297601000int / 10000000000000000000000000000000000000000int == 14);
    assert(pow9(41) == 1330279464729113309844748891857449678409);
    assert(pow10(41) == 100000000000000000000000000000000000000000);
    assert(1000 * pow9(41) == 1330279464729113309844748891857449678409000);
    assert(1330279464729113309844748891857449678409000int / 100000000000000000000000000000000000000000int == 13);
    assert(pow9(42) == 11972515182562019788602740026717047105681);
    assert(pow10(42) == 1000000000000000000000000000000000000000000);
    assert(1000 * pow9(42) == 11972515182562019788602740026717047105681000);
    assert(11972515182562019788602740026717047105681000int / 1000000000000000000000000000000000000000000int == 11);
    assert(pow9(43) == 107752636643058178097424660240453423951129);
    assert(pow10(43) == 10000000000000000000000000000000000000000000);
    assert(1000 * pow9(43) == 107752636643058178097424660240453423951129000);
    assert(107752636643058178097424660240453423951129000int / 10000000000000000000000000000000000000000000int == 10);
    assert(pow9(44) == 969773729787523602876821942164080815560161);
    assert(pow10(44) == 100000000000000000000000000000000000000000000);
    assert(1000 * pow9(44) == 969773729787523602876821942164080815560161000);
    assert(969773729787523602876821942164080815560161000int / 100000000000000000000000000000000000000000000int == 9);
    assert(pow9(45) == 8727963568087712425891397479476727340041449);
    assert(pow10(45) == 1000000000000000000000000000000000000000000000);
    assert(1000 * pow9(45) == 8727963568087712425891397479476727340041449000);
    assert(8727963568087712425891397479476727340041449000int / 1000000000000000000000000000000000000000000000int == 8);
    assert(pow9(46) == 78551672112789411833022577315290546060373041);
    assert(pow10(46) == 10000000000000000000000000000000000000000000000);
    assert(1000 * pow9(46) == 78551672112789411833022577315290546060373041000);
    assert(78551672112789411833022577315290546060373041000int / 10000000000000000000000000000000000000000000000int == 7);
    assert(pow9(47) == 706965049015104706497203195837614914543357369);
    assert(pow10(47) == 100000000000000000000000000000000000000000000000);
    assert(1000 * pow9(47) == 706965049015104706497203195837614914543357369000);
    assert(706965049015104706497203195837614914543357369000int / 100000000000000000000000000000000000000000000000int == 7);
    assert(pow9(48) == 6362685441135942358474828762538534230890216321);
    assert(pow10(48) == 1000000000000000000000000000000000000000000000000);
    assert(1000 * pow9(48) == 6362685441135942358474828762538534230890216321000);
    assert(6362685441135942358474828762538534230890216321000int / 1000000000000000000000000000000000000000000000000int == 6);
    assert(pow9(49) == 57264168970223481226273458862846808078011946889);
    assert(pow10(49) == 10000000000000000000000000000000000000000000000000);
    assert(1000 * pow9(49) == 57264168970223481226273458862846808078011946889000);
    assert(57264168970223481226273458862846808078011946889000int / 10000000000000000000000000000000000000000000000000int == 5);
    assert(pow9(50) == 515377520732011331036461129765621272702107522001);
    assert(pow10(50) == 100000000000000000000000000000000000000000000000000);
    assert(1000 * pow9(50) == 515377520732011331036461129765621272702107522001000);
    assert(515377520732011331036461129765621272702107522001000int / 100000000000000000000000000000000000000000000000000int == 5);
    assert(pow9(51) == 4638397686588101979328150167890591454318967698009);
    assert(pow10(51) == 1000000000000000000000000000000000000000000000000000);
    assert(1000 * pow9(51) == 4638397686588101979328150167890591454318967698009000);
    assert(4638397686588101979328150167890591454318967698009000int / 1000000000000000000000000000000000000000000000000000int == 4);
    assert(pow9(52) == 41745579179292917813953351511015323088870709282081);
    assert(pow10(52) == 10000000000000000000000000000000000000000000000000000);
    assert(1000 * pow9(52) == 41745579179292917813953351511015323088870709282081000);
    assert(41745579179292917813953351511015323088870709282081000int / 10000000000000000000000000000000000000000000000000000int == 4);
    assert(pow9(53) == 375710212613636260325580163599137907799836383538729);
    assert(pow10(53) == 100000000000000000000000000000000000000000000000000000);
    assert(1000 * pow9(53) == 375710212613636260325580163599137907799836383538729000);
    assert(375710212613636260325580163599137907799836383538729000int / 100000000000000000000000000000000000000000000000000000int == 3);
    assert(pow9(54) == 3381391913522726342930221472392241170198527451848561);
    assert(pow10(54) == 1000000000000000000000000000000000000000000000000000000);
    assert(1000 * pow9(54) == 3381391913522726342930221472392241170198527451848561000);
    assert(3381391913522726342930221472392241170198527451848561000int / 1000000000000000000000000000000000000000000000000000000int == 3);
    assert(pow9(55) == 30432527221704537086371993251530170531786747066637049);
    assert(pow10(55) == 10000000000000000000000000000000000000000000000000000000);
    assert(1000 * pow9(55) == 30432527221704537086371993251530170531786747066637049000);
    assert(30432527221704537086371993251530170531786747066637049000int / 10000000000000000000000000000000000000000000000000000000int == 3);
    assert(pow9(56) == 273892744995340833777347939263771534786080723599733441);
    assert(pow10(56) == 100000000000000000000000000000000000000000000000000000000);
    assert(1000 * pow9(56) == 273892744995340833777347939263771534786080723599733441000);
    assert(273892744995340833777347939263771534786080723599733441000int / 100000000000000000000000000000000000000000000000000000000int == 2);
    assert(pow9(57) == 2465034704958067503996131453373943813074726512397600969);
    assert(pow10(57) == 1000000000000000000000000000000000000000000000000000000000);
    assert(1000 * pow9(57) == 2465034704958067503996131453373943813074726512397600969000);
    assert(2465034704958067503996131453373943813074726512397600969000int / 1000000000000000000000000000000000000000000000000000000000int == 2);
    assert(pow9(58) == 22185312344622607535965183080365494317672538611578408721);
    assert(pow10(58) == 10000000000000000000000000000000000000000000000000000000000);
    assert(1000 * pow9(58) == 22185312344622607535965183080365494317672538611578408721000);
    assert(22185312344622607535965183080365494317672538611578408721000int / 10000000000000000000000000000000000000000000000000000000000int == 2);
}

/// The gravity period in milliseconds for the given level.
#[verifier::rlimit(100)]
pub fn fall_period_ms(level: u64) -> (p: u64)
    requires
        level >= 1,
    ensures
        p == spec_fall_period_ms(level as int),
        1 <= p <= 1000,
{
    proof {
        if level >= 60 {
            lemma_fall_period_tail(level as int - 1);
        } else {
            lemma_fall_period_table();
        }
    }
    match level {
        1 => 1000,
        2 => 900,
        3 => 810,
        4 => 729,
        5 => 656,
        6 => 590,
        7 => 531,
        8 => 478,
        9 => 430,
        10 => 387,
        11 => 348,
        12 => 313,
        13 => 282,
        14 => 254,
        15 => 228,
        16 => 205,
        17 => 185,
        18 => 166,
        19 => 150,
        20 => 135,
        21 => 121,
        22 => 109,
        23 => 98,
        24 => 88,
        25 => 79,
        26 => 71,
        27 => 64,
        28 => 58,
        29 => 52,
        30 => 47,
        31 => 42,
        32 => 38,
        33 => 34,
        34 => 30,
        35 => 27,
        36 => 25,
        37 => 22,
        38 => 20,
        39 => 18,
        40 => 16,
        41 => 14,
        42 => 13,
        43 => 11,
        44 => 10,
        45 => 9,
        46 => 8,
        47 => 7,
        48 => 7,
        49 => 6,
        50 => 5,
        51 => 5,
        52 => 4,
        53 => 4,
        54 => 3,
        55 => 3,
        56 => 3,
        57 => 2,
        58 => 2,
        59 => 2,
        _ => 1,
    }
}

/// The board after the active piece `p` settles: its four blocks join the
/// static blocks, colored with the piece's shape color.
pub open spec fn landed_board(board: Seq<Block>, p: ActivePiece) -> Seq<Block> {
    board + p.blocks@.map_values(
        |pos: GridPosition| Block { position: pos, color: spec_color(p.shape) },
    )
}

/// The cells the piece `p` would settle on after falling `steps` rows,
/// as colored blocks.
pub open spec fn dropped_cells(p: ActivePiece, steps: int) -> Seq<Block> {
    p.blocks@.map_values(
        |pos: GridPosition|
            Block {
                position: GridPosition { x: pos.x, y: (pos.y - steps) as i32 },
                color: spec_color(p.shape),
            },
    )
}

/// Whether all four spawn cells of `shape` are free on `board`.
pub open spec fn spawn_free(board: Seq<Block>, shape: Shape) -> bool {
    forall|i: int|
        0 <= i < 4 ==> !hit(
            board,
            (#[trigger] spec_spawn_cells(shape)[i]).x as int,
            spec_spawn_cells(shape)[i].y as int,
        )
}

/// How the score keeper changes when one clear event of `n` rows is
/// recorded: points are awarded at the current level and saturate at the
/// counter's maximum, the line total grows by `n`, and the level rises by
/// one exactly when the new line total reaches another multiple of five.
pub open spec fn score_after(sk: ScoreKeeper, n: int, sk2: ScoreKeeper) -> bool {
    &&& sk2.lines == sk.lines + n
    &&& sk2.score == if sk.score + spec_points(n) * (sk.level + 1) <= u64::MAX {
        sk.score + spec_points(n) * (sk.level + 1)
    } else {
        u64::MAX as int
    }
    &&& sk2.level == if sk2.lines as int / 5 > sk.level - 1 {
        sk.level + 1
    } else {
        sk.level as int
    }
}

/// Where a spawn attempt of `shape` on the already-cleared board `b2`
/// lands the game: all four cells free gives a fresh active piece and
/// `Playing`; any overlap gives `GameOver` with no piece and the board
/// untouched.
pub open spec fn spawn_outcome(b2: Seq<Block>, shape: Shape, g2: Game) -> bool {
    if spawn_free(b2, shape) {
        &&& g2.state is Playing
        &&& g2.active matches Some(p) && p.shape == shape && p.blocks@ == spec_spawn_cells(shape)
            && p.pivot == spec_center(shape)
    } else {
        &&& g2.state is GameOver
        &&& g2.active is None
    }
}

/// The whole synchronous Spawning cascade, entered with board `b1`,
/// score keeper `sk` and a buffered shape `consumed`: full rows of `b1`
/// are cleared and scored, the buffer is refilled with `draw` (even when
/// the spawn fails), and the consumed shape is spawned on the cleared
/// board.
pub open spec fn spawn_cycle_post(
    b1: Seq<Block>,
    sk: ScoreKeeper,
    consumed: Shape,
    draw: Shape,
    g2: Game,
) -> bool {
    &&& g2.static_blocks@ == after_clear(b1)
    &&& score_after(sk, full_rows_below(b1, row_bound(b1)) as int, g2.score_keeper)
    &&& g2.next_piece == draw
    &&& spawn_outcome(after_clear(b1), consumed, g2)
}

/// Indicator that `v` is a full row of `board` lying in `0 .. n`.
pub open spec fn row_ind(board: Seq<Block>, v: int, n: int) -> int {
    if 0 <= v < n && row_full(board, v) {
        1
    } else {
        0
    }
}

/// When every full row of a board is one of four given rows, at most
/// four rows below any bound are full.
proof fn lemma_full_count_by_rows(board: Seq<Block>, a: int, b: int, c: int, d: int, n: int)
    requires
        forall|y: int| #[trigger] row_full(board, y) ==> y == a || y == b || y == c || y == d,
    ensures
        full_rows_below(board, n) <= row_ind(board, a, n) + row_ind(board, b, n) + row_ind(
            board,
            c,
            n,
        ) + row_ind(board, d, n),
    decreases n,
{
    if n > 0 {
        lemma_full_count_by_rows(board, a, b, c, d, n - 1);
    }
}

/// Settling a legal piece on a board that has no full row keeps the
/// board well formed and under the piece ceiling, and can complete at
/// most the four rows the piece touches.
pub proof fn lemma_landed_board(board: Seq<Block>, p: ActivePiece)
    requires
        board_wf(board),
        forall|y: int| !row_full(board, y),
        forall|i: int|
            0 <= i < board.len() ==> (#[trigger] board[i]).position.y <= PIECE_ROW_LIMIT as int,
        p.wf(),
        p.clear_of(board),
        forall|i: int| 0 <= i < 4 ==> (#[trigger] p.blocks@[i]).y <= PIECE_ROW_LIMIT as int,
    ensures
        board_wf(landed_board(board, p)),
        forall|i: int|
            0 <= i < landed_board(board, p).len() ==> (#[trigger] landed_board(
                board,
                p,
            )[i]).position.y <= PIECE_ROW_LIMIT as int,
        full_rows_below(landed_board(board, p), row_bound(landed_board(board, p))) <= 4,
{
    let lb = landed_board(board, p);
    let bl = board.len() as int;
    assert(lb.len() == bl + 4);
    assert(forall|i: int| 0 <= i < bl ==> #[trigger] lb[i] == board[i]);
    assert(forall|i: int|
        0 <= i < 4 ==> (#[trigger] lb[bl + i]).position == p.blocks@[i] && lb[bl + i].color
            == spec_color(p.shape));
    assert forall|i: int, j: int|
        0 <= i < j < lb.len() implies !((#[trigger] lb[i]).position.x == (
    #[trigger] lb[j]).position.x && lb[i].position.y == lb[j].position.y) by {
        if i < bl && j >= bl {
            assert(lb[j].position == p.blocks@[j - bl]);
            assert(!crate::grid::occupied(board, p.blocks@[j - bl].x as int, p.blocks@[j
                - bl].y as int));
        } else if i >= bl {
            assert(lb[i].position == p.blocks@[i - bl]);
            assert(lb[j].position == p.blocks@[j - bl]);
        }
    }
    assert forall|y: int| #[trigger] row_full(lb, y) implies y == p.blocks@[0].y || y
        == p.blocks@[1].y || y == p.blocks@[2].y || y == p.blocks@[3].y by {
        if !(y == p.blocks@[0].y || y == p.blocks@[1].y || y == p.blocks@[2].y || y
            == p.blocks@[3].y) {
            assert forall|x: int|
                0 <= x < crate::grid::GRID_SIZE_X as int implies crate::grid::occupied(
                board,
                x,
                y,
            ) by {
                assert(crate::grid::occupied(lb, x, y));
                let idx = choose|idx: int|
                    0 <= idx < lb.len() && (#[trigger] lb[idx]).position.x == x
                        && lb[idx].position.y == y;
                assert(idx < bl);
                assert(board[idx].position.x == x && board[idx].position.y == y);
            }
            assert(row_full(board, y));
            assert(false);
        }
    }
    lemma_full_count_by_rows(
        lb,
        p.blocks@[0].y as int,
        p.blocks@[1].y as int,
        p.blocks@[2].y as int,
        p.blocks@[3].y as int,
        row_bound(lb),
    );
}

/// How a game changes when the active piece is asked to shift by
/// `(dx, dy)`: all four blocks move together when every target cell is
/// free, and nothing at all changes otherwise.
pub open spec fn translated_post(g1: Game, dx: int, dy: int, g2: Game) -> bool {
    let p = g1.active.unwrap();
    if can_translate(p.blocks@, dx, dy, g1.static_blocks@) {
        &&& g2.active matches Some(q) && q.shape == p.shape && q.pivot == p.pivot
            && q.blocks@.len() == 4 && (forall|i: int|
            0 <= i < 4 ==> (#[trigger] q.blocks@[i]).x == p.blocks@[i].x + dx && q.blocks@[i].y
                == p.blocks@[i].y + dy)
        &&& g2 == (Game { active: g2.active, ..g1 })
    } else {
        g2 == g1
    }
}

/// How a game changes when the active piece is asked to rotate: a piece
/// without a rotation center is left as it is (a successful no-op); any
/// other piece turns a quarter turn clockwise around its center when
/// every target cell is free, and nothing at all changes otherwise.
pub open spec fn rotated_post(g1: Game, g2: Game) -> bool {
    let p = g1.active.unwrap();
    match p.pivot {
        None => g2 == g1,
        Some(c) => {
            let ctr = p.blocks@[c as int];
            if can_rotate(p.blocks@, ctr, g1.static_blocks@) {
                &&& g2.active matches Some(q) && q.shape == p.shape && q.pivot == p.pivot
                    && q.blocks@.len() == 4 && (forall|i: int|
                    0 <= i < 4 ==> (#[trigger] q.blocks@[i]).x == ctr.x + (p.blocks@[i].y - ctr.y)
                        && q.blocks@[i].y == ctr.y - (p.blocks@[i].x - ctr.x))
                &&& g2 == (Game { active: g2.active, ..g1 })
            } else {
                g2 == g1
            }
        },
    }
}

/// How a game changes on a hard drop: the active piece falls `steps`
/// rows — each intermediate placement free, one more blocked — settles
/// there, and the Spawning cascade runs.
pub open spec fn hard_drop_post(g1: Game, draw: Shape, g2: Game) -> bool {
    let p = g1.active.unwrap();
    exists|steps: int|
        {
            &&& 0 <= steps
            &&& forall|d: int|
                1 <= d <= steps ==> #[trigger] can_translate(p.blocks@, 0, -d, g1.static_blocks@)
            &&& !can_translate(p.blocks@, 0, -(steps + 1), g1.static_blocks@)
            &&& spawn_cycle_post(
                g1.static_blocks@ + #[trigger] dropped_cells(p, steps),
                g1.score_keeper,
                g1.next_piece,
                draw,
                g2,
            )
            &&& g2.fall_acc_ms == g1.fall_acc_ms
        }
}

/// Rotating the square piece never changes its occupied cells: a
/// well-formed active piece of the square shape has no rotation center,
/// so a rotation request leaves the game exactly as it was.
pub proof fn lemma_square_rotation_is_identity(g1: Game, g2: Game)
    requires
        g1.wf(),
        g1.state is Playing,
        g1.active.unwrap().shape == Shape::O,
        rotated_post(g1, g2),
    ensures
        g2 == g1,
{
}

/// Everything `apply_action` promises, as one predicate over the game
/// before (`g1`) and after (`g2`) the action, with `draw` the shape that
/// refills the next-piece buffer if a spawn happens. Actions that are
/// meaningless in the current state change nothing at all.
pub open spec fn action_post(g1: Game, action: Action, draw: Shape, g2: Game) -> bool {
    &&& ((action is MoveLeft || action is MoveRight || action is MoveDown || action is Rotate
        || action is HardDrop) && !(g1.state is Playing) ==> g2 == g1)
    &&& (action is StartGame && !(g1.state is Title) ==> g2 == g1)
    &&& (action is TogglePause && !(g1.state is Playing || g1.state is Paused) ==> g2 == g1)
    &&& (action is Reset && g1.state is Title ==> g2 == g1)
    &&& (action is TogglePause && g1.state is Playing ==> g2 == (Game {
        state: GameState::Paused,
        ..g1
    }))
    &&& (action is TogglePause && g1.state is Paused ==> g2 == (Game {
        state: GameState::Playing,
        ..g1
    }))
    &&& (action is Reset && (g1.state is Playing || g1.state is Paused || g1.state is GameOver)
        ==> {
        &&& g2.static_blocks@ == Seq::<Block>::empty()
        &&& g2.active is None
        &&& g2.state is Title
        &&& g2.score_keeper == (ScoreKeeper { score: 0, lines: 0, level: 1 })
        &&& g2.next_piece == g1.next_piece
        &&& g2.fall_acc_ms == g1.fall_acc_ms
    })
    &&& (action is StartGame && g1.state is Title ==> spawn_cycle_post(
        g1.static_blocks@,
        g1.score_keeper,
        g1.next_piece,
        draw,
        g2,
    ) && g2.fall_acc_ms == g1.fall_acc_ms)
    &&& (action is MoveLeft && g1.state is Playing ==> translated_post(g1, -1, 0, g2))
    &&& (action is MoveRight && g1.state is Playing ==> translated_post(g1, 1, 0, g2))
    &&& (action is MoveDown && g1.state is Playing ==> translated_post(g1, 0, -1, g2))
    &&& (action is Rotate && g1.state is Playing ==> rotated_post(g1, g2))
    &&& (action is HardDrop && g1.state is Playing ==> hard_drop_post(g1, draw, g2))
}

/// Everything `advance` promises, as one predicate: outside `Playing`
/// time does not pass; otherwise the elapsed milliseconds accumulate
/// (saturating), and once the level's period has expired the piece
/// descends one row or — blocked below — lands and the Spawning cascade
/// runs with `draw` as the buffer refill.
pub open spec fn advance_post(g1: Game, elapsed_ms: u64, draw: Shape, g2: Game) -> bool {
    &&& (!(g1.state is Playing) ==> g2 == g1)
    &&& (g1.state is Playing ==> ({
        let acc2 = if g1.fall_acc_ms + elapsed_ms <= u64::MAX {
            g1.fall_acc_ms + elapsed_ms
        } else {
            u64::MAX as int
        };
        let period = spec_fall_period_ms(g1.score_keeper.level as int);
        let p = g1.active.unwrap();
        if acc2 < period {
            g2 == (Game { fall_acc_ms: acc2 as u64, ..g1 })
        } else if can_translate(p.blocks@, 0, -1, g1.static_blocks@) {
            &&& g2.fall_acc_ms == acc2 % period
            &&& g2.active matches Some(q) && q.shape == p.shape && q.pivot == p.pivot
                && q.blocks@.len() == 4 && (forall|i: int|
                0 <= i < 4 ==> (#[trigger] q.blocks@[i]).x == p.blocks@[i].x && q.blocks@[i].y
                    == p.blocks@[i].y - 1)
            &&& g2 == (Game { active: g2.active, fall_acc_ms: g2.fall_acc_ms, ..g1 })
        } else {
            &&& spawn_cycle_post(
                landed_board(g1.static_blocks@, p),
                g1.score_keeper,
                g1.next_piece,
                draw,
                g2,
            )
            &&& g2.fall_acc_ms == acc2 % period
        }
    }))
}

/// One game session: every piece of state the simulation owns.
pub struct Game {
    pub static_blocks: Vec<Block>,
    pub active: Option<ActivePiece>,
    pub next_piece: Shape,
    pub score_keeper: ScoreKeeper,
    pub state: GameState,
    pub fall_acc_ms: u64,
}

impl Game {
    /// The session invariant, re-established after every action and
    /// tick: the board is well formed, holds no full row, and stays
    /// below the piece ceiling; the bookkeeping invariant holds; and an
    /// active piece exists exactly in `Playing` and `Paused`, is well
    /// formed, overlaps nothing, and respects the row limits that keep
    /// every rotation inside the arithmetic range.
    pub open spec fn wf(self) -> bool {
        &&& board_wf(self.static_blocks@)
        &&& forall|i: int|
            0 <= i < self.static_blocks@.len() ==> (#[trigger] self.static_blocks@[i]).position.y
                <= PIECE_ROW_LIMIT as int
        &&& forall|y: int| !row_full(self.static_blocks@, y)
        &&& self.score_keeper.wf()
        &&& !(self.state is Spawning)
        &&& match self.active {
            Some(p) => {
                &&& (self.state is Playing || self.state is Paused)
                &&& p.wf()
                &&& p.clear_of(self.static_blocks@)
                &&& forall|i: int|
                    0 <= i < 4 ==> (#[trigger] p.blocks@[i]).y <= PIECE_ROW_LIMIT as int
                &&& (p.pivot matches Some(c) ==> p.blocks@[c as int].y <= CENTER_ROW_LIMIT as int)
            },
            None => !(self.state is Playing || self.state is Paused),
        }
    }

    /// A fresh session on the title screen: empty board, no active
    /// piece, zeroed counters at level one, and `first` buffered as the
    /// piece the first spawn will use.
    pub fn new(first: Shape) -> (g: Game)
        ensures
            g.wf(),
            g.static_blocks@ == Seq::<Block>::empty(),
            g.active is None,
            g.next_piece == first,
            g.score_keeper == (ScoreKeeper { score: 0, lines: 0, level: 1 }),
            g.state is Title,
            g.fall_acc_ms == 0,
    {
        let g = Game {
            static_blocks: Vec::new(),
            active: None,
            next_piece: first,
            score_keeper: ScoreKeeper::new(),
            state: GameState::Title,
            fall_acc_ms: 0,
        };
        proof {
            assert forall|y: int| !row_full(g.static_blocks@, y) by {
                assert(!crate::grid::occupied(g.static_blocks@, 0, y));
            }
        }
        g
    }

    /// Enters the Spawning state and runs its synchronous cascade: full
    /// rows are cleared and scored, the buffered shape is consumed and
    /// spawned on the cleared board, and the buffer is refilled with
    /// `draw` whether or not the spawn succeeds. Ends in `Playing` with
    /// a fresh active piece, or in `GameOver` with no piece and the
    /// board exactly as the clearing pass left it.
    pub fn run_spawn_cycle(&mut self, draw: Shape)
        requires
            board_wf(old(self).static_blocks@),
            forall|i: int|
                0 <= i < old(self).static_blocks@.len() ==> (#[trigger] old(
                    self,
                ).static_blocks@[i]).position.y <= PIECE_ROW_LIMIT as int,
            full_rows_below(old(self).static_blocks@, row_bound(old(self).static_blocks@)) <= 4,
            old(self).active is None,
            old(self).score_keeper.wf(),
            old(self).score_keeper.lines <= u64::MAX - 4,
        ensures
            spawn_cycle_post(
                old(self).static_blocks@,
                old(self).score_keeper,
                old(self).next_piece,
                draw,
                *final(self),
            ),
            final(self).fall_acc_ms == old(self).fall_acc_ms,
            final(self).wf(),
    {
        let ghost b1: Seq<Block> = self.static_blocks@;
        self.state = GameState::Spawning;
        proof {
            assert forall|i: int|
                0 <= i < b1.len() implies (#[trigger] b1[i]).position.y < i32::MAX by {}
            crate::lines::lemma_after_clear_props(b1);
        }
        let cleared = crate::lines::clear_lines(&mut self.static_blocks);
        self.score_keeper.record_clear(cleared);
        let consumed = self.next_piece;
        self.next_piece = draw;
        proof {
            // every surviving block stays under the piece ceiling
            assert forall|j: int|
                0 <= j < self.static_blocks@.len() implies (#[trigger] self.static_blocks@[j]).position.y
                <= PIECE_ROW_LIMIT as int by {
                assert(crate::lines::from_source(b1, b1.len() as int, self.static_blocks@[j]));
                let i = choose|i: int|
                    0 <= i < b1.len() && !row_full(b1, (#[trigger] b1[i]).position.y as int)
                        && self.static_blocks@[j] == crate::lines::shifted(b1, b1[i]);
                crate::lines::lemma_full_rows_below_le(b1, b1[i].position.y as int);
            }
        }
        match crate::tetromino::spawn_tetromino(&self.static_blocks, consumed) {
            Some(p) => {
                proof {
                    crate::tetromino::lemma_shape_table(consumed);
                    assert forall|i: int|
                        0 <= i < 4 implies (#[trigger] p.blocks@[i]).y
                        <= PIECE_ROW_LIMIT as int by {
                        assert(p.blocks@[i] == spec_spawn_cells(consumed)[i]);
                        assert(spec_blocks(consumed)[i].y <= 1);
                    }
                    if p.pivot is Some {
                        let c = p.pivot.unwrap() as int;
                        assert(p.blocks@[c] == spec_spawn_cells(consumed)[c]);
                        assert(spec_blocks(consumed)[c] == (GridPosition { x: 0, y: 0 }));
                    }
                }
                self.active = Some(p);
                self.state = GameState::Playing;
            },
            None => {
                self.active = None;
                self.state = GameState::GameOver;
            },
        }
    }

    /// Settles the active piece where it stands — its blocks become
    /// static, in the piece's color — and runs the Spawning cascade.
    fn land_and_cycle(&mut self, draw: Shape)
        requires
            old(self).wf(),
            old(self).state is Playing,
            old(self).score_keeper.lines <= u64::MAX - 4,
        ensures
            spawn_cycle_post(
                landed_board(old(self).static_blocks@, old(self).active.unwrap()),
                old(self).score_keeper,
                old(self).next_piece,
                draw,
                *final(self),
            ),
            final(self).fall_acc_ms == old(self).fall_acc_ms,
            final(self).wf(),
    {
        let ghost b0: Seq<Block> = self.static_blocks@;
        let p_opt = self.active.take();
        match p_opt {
            Some(p) => {
                proof {
                    lemma_landed_board(b0, p);
                }
                let color = crate::tetromino::get_tetromino_color(p.shape);
                let mut i: usize = 0;
                while i < 4
                    invariant
                        p.blocks@.len() == 4,
                        i <= 4,
                        color == spec_color(p.shape),
                        self.active is None,
                        self.next_piece == old(self).next_piece,
                        self.score_keeper == old(self).score_keeper,
                        self.state == old(self).state,
                        self.fall_acc_ms == old(self).fall_acc_ms,
                        self.static_blocks@.len() == b0.len() + i,
                        forall|k: int| 0 <= k < b0.len() ==> #[trigger] self.static_blocks@[k] == b0[k],
                        forall|k: int|
                            0 <= k < i ==> #[trigger] self.static_blocks@[b0.len() + k] == (Block {
                                position: p.blocks@[k],
                                color: spec_color(p.shape),
                            }),
                    decreases 4 - i,
                {
                    let pos = p.blocks[i];
                    self.static_blocks.push(Block { position: pos, color });
                    i = i + 1;
                }
                proof {
                    assert forall|idx: int|
                        0 <= idx < self.static_blocks@.len() implies #[trigger] self.static_blocks@[idx]
                        == landed_board(b0, p)[idx] by {
                        if idx >= b0.len() {
                            let k = idx - b0.len();
                            assert(self.static_blocks@[b0.len() + k] == (Block {
                                position: p.blocks@[k],
                                color: spec_color(p.shape),
                            }));
                        }
                    }
                    assert(self.static_blocks@ =~= landed_board(b0, p));
                }
                self.run_spawn_cycle(draw);
            },
            None => {
                proof {
                    assert(false);
                }
            },
        }
    }

    /// Shifts the active piece by `(dx, dy)` while `Playing`; in any
    /// other state nothing changes.
    fn try_move(&mut self, dx: i32, dy: i32)
        requires
            old(self).wf(),
            -1 <= dx <= 1,
            -1 <= dy <= 0,
        ensures
            final(self).wf(),
            !(old(self).state is Playing) ==> *final(self) == *old(self),
            old(self).state is Playing ==> translated_post(*old(self), dx as int, dy as int, *final(self)),
    {
        if self.state == GameState::Playing {
            match &mut self.active {
                Some(p) => {
                    let _ = crate::movement::translate(p, &self.static_blocks, dx, dy);
                },
                None => {
                    proof {
                        assert(false);
                    }
                },
            }
        }
    }

    /// Rotates the active piece a quarter turn clockwise while
    /// `Playing`; in any other state nothing changes.
    fn try_rotate(&mut self)
        requires
            old(self).wf(),
        ensures
            final(self).wf(),
            !(old(self).state is Playing) ==> *final(self) == *old(self),
            old(self).state is Playing ==> rotated_post(*old(self), *final(self)),
    {
        if self.state == GameState::Playing {
            match &mut self.active {
                Some(p) => {
                    let ghost before: ActivePiece = *p;
                    let r = crate::movement::rotate(p, &self.static_blocks);
                    proof {
                        if r && before.pivot is Some {
                            let c = before.pivot.unwrap() as int;
                            assert(p.blocks@[c].y == before.blocks@[c].y);
                        }
                    }
                },
                None => {
                    proof {
                        assert(false);
                    }
                },
            }
        }
    }

    /// Hard drop: sends the active piece straight down until blocked,
    /// settles it there, and runs the Spawning cascade.
    fn drop_and_land(&mut self, draw: Shape)
        requires
            old(self).wf(),
            old(self).state is Playing,
            old(self).score_keeper.lines <= u64::MAX - 4,
        ensures
            final(self).wf(),
            hard_drop_post(*old(self), draw, *final(self)),
    {
        let ghost p0: ActivePiece = old(self).active.unwrap();
        let steps: u32;
        match &mut self.active {
            Some(p) => {
                steps = crate::movement::hard_drop(p, &self.static_blocks);
            },
            None => {
                proof {
                    assert(false);
                }
                steps = 0;
            },
        }
        let ghost mid: Game = *self;
        self.land_and_cycle(draw);
        proof {
            let pd = mid.active.unwrap();
            assert forall|idx: int|
                0 <= idx < 4 implies #[trigger] landed_board(mid.static_blocks@, pd)[mid.static_blocks@.len()
                + idx] == dropped_cells(p0, steps as int)[idx] by {
                assert(pd.blocks@[idx].x == p0.blocks@[idx].x && pd.blocks@[idx].y
                    == p0.blocks@[idx].y - steps);
            }
            assert(landed_board(mid.static_blocks@, pd) =~= old(self).static_blocks@
                + dropped_cells(p0, steps as int));
            assert(0 <= steps as int && (forall|d: int|
                1 <= d <= steps as int ==> #[trigger] can_translate(
                    p0.blocks@,
                    0,
                    -d,
                    old(self).static_blocks@,
                )) && !can_translate(p0.blocks@, 0, -(steps as int + 1), old(self).static_blocks@)
                && spawn_cycle_post(
                old(self).static_blocks@ + dropped_cells(p0, steps as int),
                old(self).score_keeper,
                old(self).next_piece,
                draw,
                *self,
            ) && self.fall_acc_ms == old(self).fall_acc_ms);
        }
    }

    /// Applies one resolved input action. Movement, rotation and hard
    /// drop act only while `Playing`; pausing toggles between `Playing`
    /// and `Paused`; the game starts only from the title screen; a
    /// reset from `Playing`, `Paused` or `GameOver` returns to an empty
    /// title screen with zeroed counters at level one, keeping the
    /// buffered next piece. An action that is meaningless in the
    /// current state changes nothing. `draw` refills the next-piece
    /// buffer whenever a spawn happens.
    pub fn apply_action(&mut self, action: Action, draw: Shape)
        requires
            old(self).wf(),
            old(self).score_keeper.lines <= u64::MAX - 4,
        ensures
            final(self).wf(),
            action_post(*old(self), action, draw, *final(self)),
    {
        match action {
            Action::MoveLeft => self.try_move(-1, 0),
            Action::MoveRight => self.try_move(1, 0),
            Action::MoveDown => self.try_move(0, -1),
            Action::Rotate => self.try_rotate(),
            Action::HardDrop => {
                if self.state == GameState::Playing {
                    self.drop_and_land(draw);
                }
            },
            Action::TogglePause => {
                if self.state == GameState::Playing {
                    self.state = GameState::Paused;
                } else if self.state == GameState::Paused {
                    self.state = GameState::Playing;
                }
            },
            Action::StartGame => {
                if self.state == GameState::Title {
                    proof {
                        crate::lines::lemma_no_full_rows_count(
                            self.static_blocks@,
                            row_bound(self.static_blocks@),
                        );
                    }
                    self.run_spawn_cycle(draw);
                }
            },
            Action::Reset => {
                if self.state == GameState::Playing || self.state == GameState::Paused
                    || self.state == GameState::GameOver {
                    self.static_blocks = Vec::new();
                    self.active = None;
                    self.score_keeper = ScoreKeeper::new();
                    self.state = GameState::Title;
                    proof {
                        assert forall|y: int| !row_full(self.static_blocks@, y) by {
                            assert(!crate::grid::occupied(self.static_blocks@, 0, y));
                        }
                    }
                }
            },
        }
    }

    /// Advances the gravity timer by `elapsed_ms` while `Playing`. When
    /// the level's period expires, the active piece descends one row, or
    /// — if the row below is blocked — lands, which runs the Spawning
    /// cascade with `draw` as the refill. Outside `Playing` time does
    /// not pass.
    pub fn advance(&mut self, elapsed_ms: u64, draw: Shape)
        requires
            old(self).wf(),
            old(self).score_keeper.lines <= u64::MAX - 4,
        ensures
            final(self).wf(),
            advance_post(*old(self), elapsed_ms, draw, *final(self)),
    {
        if !(self.state == GameState::Playing) {
            return ;
        }
        let period = fall_period_ms(self.score_keeper.level);
        let acc2 = if elapsed_ms > u64::MAX - self.fall_acc_ms {
            u64::MAX
        } else {
            self.fall_acc_ms + elapsed_ms
        };
        if acc2 < period {
            self.fall_acc_ms = acc2;
            return ;
        }
        self.fall_acc_ms = acc2 % period;
        let moved: bool;
        match &mut self.active {
            Some(p) => {
                moved = crate::movement::translate(p, &self.static_blocks, 0, -1);
            },
            None => {
                proof {
                    assert(false);
                }
                moved = false;
            },
        }
        if !moved {
            self.land_and_cycle(draw);
        }
    }

    /// Applies one action, drawing any needed buffer refill from the
    /// process's random source: the session changes exactly as
    /// `apply_action` promises for some drawn shape. Actions that never
    /// touch the buffer (movement, rotation, pause, reset, and anything
    /// ignored in the current state) are therefore pinned completely.
    pub fn apply_action_random(&mut self, action: Action)
        requires
            old(self).wf(),
            old(self).score_keeper.lines <= u64::MAX - 4,
        ensures
            final(self).wf(),
            exists|d: Shape| #[trigger] action_post(*old(self), action, d, *final(self)),
    {
        let draw = random_shape();
        self.apply_action(action, draw);
    }

    /// Advances the gravity timer, drawing any needed buffer refill
    /// from the process's random source: the session changes exactly as
    /// `advance` promises for some drawn shape. The draw matters only
    /// when a landing spawns; accumulation and plain descent are pinned
    /// completely.
    pub fn advance_random(&mut self, elapsed_ms: u64)
        requires
            old(self).wf(),
            old(self).score_keeper.lines <= u64::MAX - 4,
        ensures
            final(self).wf(),
            exists|d: Shape| #[trigger] advance_post(*old(self), elapsed_ms, d, *final(self)),
    {
        let draw = random_shape();
        self.advance(elapsed_ms, draw);
    }

    /// A fresh session whose first buffered piece is drawn at random.
    pub fn new_random() -> (g: Game)
        ensures
            g.wf(),
            g.static_blocks@ == Seq::<Block>::empty(),
            g.active is None,
            g.score_keeper == (ScoreKeeper { score: 0, lines: 0, level: 1 }),
            g.state is Title,
            g.fall_acc_ms == 0,
    {
        let first = random_shape();
        Game::new(first)
    }
}

} // verus!
