//! Evaluation tables and search constants.
use vstd::prelude::*;

verus! {

pub const PAWN_MG: [i32; 64] = [
    0, 0, 0, 0, 0, 0, 0, 0,
    98, 134, 61, 95, 68, 126, 34, -11,
    -6, 7, 26, 31, 65, 56, 25, -20,
    -14, 13, 6, 21, 23, 12, 17, -23,
    -27, -2, -5, 12, 17, 6, 10, -25,
    -26, -4, -4, -10, 3, 3, 33, -12,
    -35, -1, -20, -23, -15, 24, 38, -22,
    0, 0, 0, 0, 0, 0, 0, 0,
];

pub const KNIGHT_MG: [i32; 64] = [
    -167, -89, -34, -49, 61, -97, -15, -107,
    -73, -41, 72, 36, 23, 62, 7, -17,
    -47, 60, 37, 65, 84, 129, 73, 44,
    -9, 17, 19, 53, 37, 69, 18, 22,
    -13, 4, 16, 13, 28, 19, 21, -8,
    -23, -9, 12, 10, 19, 17, 25, -16,
    -29, -53, -12, -3, -1, 18, -14, -19,
    -105, -21, -58, -33, -17, -28, -19, -23,
];

pub const BISHOP_MG: [i32; 64] = [
    -29, 4, -82, -37, -25, -42, 7, -8,
    -26, 16, -18, -13, 30, 59, 18, -47,
    -16, 37, 43, 40, 35, 50, 37, -2,
    -4, 5, 19, 50, 37, 37, 7, -2,
    -6, 13, 13, 26, 34, 12, 10, 4,
    0, 15, 15, 15, 14, 27, 18, 10,
    4, 15, 16, 0, 7, 21, 33, 1,
    -33, -3, -14, -21, -13, -12, -39, -21,
];

pub const ROOK_MG: [i32; 64] = [
    32, 42, 32, 51, 63, 9, 31, 43,
    27, 32, 58, 62, 80, 67, 26, 44,
    -5, 19, 26, 36, 17, 45, 61, 16,
    -24, -11, 7, 26, 24, 35, -8, -20,
    -36, -26, -12, -1, 9, -7, 6, -23,
    -45, -25, -16, -17, 3, 0, -5, -33,
    -44, -16, -20, -9, -1, 11, -6, -71,
    -19, -13, 1, 17, 16, 7, -37, -26,
];

pub const QUEEN_MG: [i32; 64] = [
    -28, 0, 29, 12, 59, 44, 43, 45,
    -24, -39, -5, 1, -16, 57, 28, 54,
    -13, -17, 7, 8, 29, 56, 47, 57,
    -27, -27, -16, -16, -1, 17, -2, 1,
    -9, -26, -9, -10, -2, -4, 3, -3,
    -14, 2, -11, -2, -5, 2, 14, 5,
    -35, -8, 11, 2, 8, 15, -3, 1,
    -1, -18, -9, 10, -15, -25, -31, -50,
];

pub const KING_MG: [i32; 64] = [
    -65, 23, 16, -15, -56, -34, 2, 13,
    29, -1, -20, -7, -8, -4, -38, -29,
    -9, 24, 2, -16, -20, 6, 22, -22,
    -17, -20, -12, -27, -30, -25, -14, -36,
    -49, -1, -27, -39, -46, -44, -33, -51,
    -14, -14, -22, -46, -44, -30, -15, -27,
    1, 7, -8, -64, -43, -16, 9, 8,
    -15, 36, 12, -54, 8, -28, 24, 14,
];

pub const PAWN_EG: [i32; 64] = [
    0, 0, 0, 0, 0, 0, 0, 0,
    178, 173, 158, 134, 147, 132, 165, 187,
    94, 100, 85, 67, 56, 53, 82, 84,
    32, 24, 13, 5, -2, 4, 17, 17,
    13, 9, -3, -7, -7, -8, 3, -1,
    4, 7, -6, 1, 0, -5, -1, -8,
    13, 8, 8, 10, 13, 0, 2, -7,
    0, 0, 0, 0, 0, 0, 0, 0,
];

pub const KNIGHT_EG: [i32; 64] = [
    -58, -38, -13, -28, -31, -27, -63, -99,
    -25, -8, -25, -2, -9, -25, -24, -52,
    -24, -20, 10, 9, -1, -9, -19, -41,
    -17, 3, 22, 22, 22, 11, 8, -18,
    -18, -6, 16, 25, 16, 17, 4, -18,
    -23, -3, -1, 15, 10, -3, -20, -22,
    -42, -20, -10, -5, -2, -20, -23, -44,
    -29, -51, -23, -15, -22, -18, -50, -64,
];

pub const BISHOP_EG: [i32; 64] = [
    -14, -21, -11, -8, -7, -9, -17, -24,
    -8, -4, 7, -12, -3, -13, -4, -14,
    2, -8, 0, -1, -2, 6, 0, 4,
    -3, 9, 12, 9, 14, 10, 3, 2,
    -6, 3, 13, 19, 7, 10, -3, -9,
    -12, -3, 8, 10, 13, 3, -7, -15,
    -14, -18, -7, -1, 4, -9, -15, -27,
    -23, -9, -23, -5, -9, -16, -5, -17,
];

pub const ROOK_EG: [i32; 64] = [
    13, 10, 18, 15, 12, 12, 8, 5,
    11, 13, 13, 11, -3, 3, 8, 3,
    7, 7, 7, 5, 4, -3, -5, -3,
    4, 3, 13, 1, 2, 1, -1, 2,
    3, 5, 8, 4, -5, -6, -8, -11,
    -4, 0, -5, -1, -7, -12, -8, -16,
    -6, -6, 0, 2, -9, -9, -11, -3,
    -9, 2, 3, -1, -5, -13, 4, -20,
];

pub const QUEEN_EG: [i32; 64] = [
    -9, 22, 22, 27, 27, 19, 10, 20,
    -17, 20, 32, 41, 58, 25, 30, 0,
    -20, 6, 9, 49, 47, 35, 19, 9,
    3, 22, 24, 45, 57, 40, 57, 36,
    -18, 28, 19, 47, 31, 34, 39, 23,
    -16, -27, 15, 6, 9, 17, 10, 5,
    -22, -23, -30, -16, -16, -23, -36, -32,
    -33, -28, -22, -43, -5, -32, -20, -41,
];

pub const KING_EG: [i32; 64] = [
    -74, -35, -18, -18, -11, 15, 4, -17,
    -12, 17, 14, 17, 17, 38, 23, 11,
    10, 17, 23, 15, 20, 45, 44, 13,
    -8, 22, 24, 27, 26, 33, 26, 3,
    -18, -4, 21, 24, 27, 23, 9, -11,
    -19, -3, 11, 21, 23, 16, 7, -9,
    -27, -11, 4, 13, 14, 4, -5, -17,
    -53, -34, -21, -11, -28, -14, -24, -43,
];

pub const KNIGHT_MOBILITY_MG: [i32; 9] = [
    -20, -10, -3, 5, 11, 16, 20, 22,
    24,
];

pub const BISHOP_MOBILITY_MG: [i32; 14] = [
    -25, -12, -4, 4, 10, 15, 19, 22,
    24, 26, 27, 28, 29, 30,
];

pub const ROOK_MOBILITY_MG: [i32; 15] = [
    -15, -10, -4, 1, 5, 8, 11, 14,
    16, 18, 19, 20, 21, 22, 23,
];

pub const QUEEN_MOBILITY_MG: [i32; 28] = [
    -30, -20, -12, -6, -2, 2, 5, 8,
    11, 13, 15, 17, 18, 19, 20, 21,
    22, 22, 23, 23, 24, 24, 24, 25,
    25, 25, 25, 25,
];

pub const KING_MOBILITY_MG: [i32; 9] = [
    5, 2, -2, -8, -18, -30, -45, -65,
    -80,
];

pub const KNIGHT_MOBILITY_EG: [i32; 9] = [
    -20, -12, -4, 2, 8, 13, 17, 19,
    20,
];

pub const BISHOP_MOBILITY_EG: [i32; 14] = [
    -25, -14, -5, 3, 9, 14, 18, 22,
    25, 27, 29, 30, 31, 32,
];

pub const ROOK_MOBILITY_EG: [i32; 15] = [
    -20, -12, -5, 1, 6, 11, 15, 19,
    22, 24, 26, 27, 28, 29, 30,
];

pub const QUEEN_MOBILITY_EG: [i32; 28] = [
    -35, -24, -15, -8, -2, 3, 8, 12,
    16, 19, 22, 24, 26, 27, 28, 29,
    30, 31, 31, 32, 32, 33, 33, 34,
    34, 34, 35, 35,
];

pub const KING_MOBILITY_EG: [i32; 9] = [
    -20, -10, -3, 5, 12, 18, 24, 28,
    30,
];

pub const PAWN_ADVANCE_BONUS: [i32; 8] = [
    0, 0, 2, 5, 12, 25, 55, 0,
];

pub const PAWN_BLOCKED_PENALTY: [i32; 8] = [
    0, 0, -15, -10, -6, -3, 0, 0,
];

pub const PHASE_WEIGHTS: [i32; 6] = [
    0, 1, 1, 2, 4, 0,
];

/// Phase of a position with all the minor and major pieces on the board.
pub const MAX_PHASE: i32 = 24;

/// Score of a mate found at the root; a mate `n` plies deep scores `n` less.
pub const MATE_SCORE: i32 = 100000;

/// Scores at least this far from zero are mate scores.
pub const MATE_THRESHOLD: i32 = 9872;

pub const MAX_DEPTH: usize = 256;

pub const MAX_MOVES: usize = 256;

/// Bound above every score.
pub const INF: i32 = 101000;


/// Natural logarithms of 0 ..= 255 in fixed point, scaled by 2^32 and
/// rounded (the entry for 0 is 0).
pub const LN_FIXED: [u64; 256] = [
    0, 0, 2977044472, 4718503851,
    5954088944, 6912483199, 7695548323, 8357620451,
    8931133415, 9437007702, 9889527671, 10298881776,
    10672592794, 11016373606, 11334664923, 11630987050,
    11908177887, 12168558655, 12414052173, 12646269121,
    12866572142, 13076124302, 13275926248, 13466845114,
    13649637266, 13824966398, 13993418078, 14155511552,
    14311709395, 14462425466, 14608031521, 14748862738,
    14885222359, 15017385627, 15145603127, 15270103650,
    15391096645, 15508774343, 15623313592, 15734877457,
    15843616614, 15949670578, 16053168774, 16154231491,
    16252970720, 16349490900, 16443889586, 16536258034,
    16626681738, 16715240902, 16802010870, 16887062506,
    16970462550, 17052273924, 17132556024, 17211364975,
    17288753867, 17364772971, 17439469938, 17512889970,
    17585075993, 17656068805, 17725907210, 17794628153,
    17862266831, 17928856805, 17994430099, 18059017290,
    18122647599, 18185348965, 18247148122, 18308070665,
    18368141117, 18427382985, 18485818815, 18543470249,
    18600358064, 18656502227, 18711921929, 18766635628,
    18820661086, 18874015403, 18926715050, 18978775897,
    19030213246, 19081041854, 19131275962, 19180929317,
    19230015191, 19278546412, 19326535372, 19373994057,
    19420934058, 19467366589, 19513302506, 19558752319,
    19603726210, 19648234041, 19692285374, 19735889478,
    19779055341, 19821791687, 19864106978, 19906009430,
    19947507022, 19988607501, 20029318396, 20069647024,
    20109600496, 20149185728, 20188409447, 20227278194,
    20265798338, 20303976077, 20341817443, 20379328313,
    20416514409, 20453381308, 20489934442, 20526179106,
    20562120465, 20597763552, 20633113276, 20668174429,
    20702951682, 20737449597, 20771672625, 20805625112,
    20839311303, 20872735341, 20905901277, 20938813065,
    20971474570, 21003889572, 21036061762, 21067994751,
    21099692071, 21131157173, 21162393437, 21193404166,
    21224192594, 21254761885, 21285115137, 21315255382,
    21345185589, 21374908665, 21404427456, 21433744753,
    21462863287, 21491785735, 21520514720, 21549052814,
    21577402536, 21605566357, 21633546699, 21661345937,
    21688966401, 21716410375, 21743680100, 21770777775,
    21797705558, 21824465565, 21851059875, 21877490526,
    21903759521, 21929868826, 21955820369, 21981616045,
    22007257717, 22032747212, 22058086326, 22083276822,
    22108320434, 22133218865, 22157973788, 22182586849,
    22207059663, 22231393821, 22255590883, 22279652388,
    22303579844, 22327374738, 22351038529, 22374572655,
    22397978530, 22421257542, 22444411061, 22467440431,
    22490346978, 22513132004, 22535796791, 22558342603,
    22580770682, 22603082250, 22625278513, 22647360656,
    22669329846, 22691187233, 22712933949, 22734571110,
    22756099813, 22777521141, 22798836159, 22820045917,
    22841151450, 22862153777, 22883053902, 22903852816,
    22924551493, 22945150896, 22965651973, 22986055656,
    23006362868, 23026574516, 23046691496, 23066714689,
    23086644968, 23106483189, 23126230200, 23145886835,
    23165453918, 23184932262, 23204322666, 23223625922,
    23242842810, 23261974099, 23281020549, 23299982908,
    23318861915, 23337658301, 23356372785, 23375006078,
    23393558881, 23412031887, 23430425780, 23448741233,
    23466978913, 23485139479, 23503223578, 23521231853,
    23539164937, 23557023455, 23574808024, 23592519254,
    23610157748, 23627724101, 23645218900, 23662642727,
    23679996154, 23697279748, 23714494068, 23731639669,
    23748717096, 23765726890, 23782669584, 23799545705,
];

} // verus!
