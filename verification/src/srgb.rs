//! sRGB to linear conversion of color bytes.
//!
//! The conversion is a curve over real numbers: a line near black, a power of
//! 12/5 above it, rounded to the nearest byte. Both branches are stated here
//! without roots, by comparing fifth and twelfth powers of integers.

use vstd::prelude::*;

verus! {

/// The product.
pub open spec fn times(x: int, y: int) -> int {
    x * y
}

/// The fifth power.
pub open spec fn power5(x: int) -> int {
    let x2 = times(x, x);
    times(times(x2, x2), x)
}

/// The twelfth power.
pub open spec fn power12(x: int) -> int {
    let x2 = times(x, x);
    let x4 = times(x2, x2);
    times(times(x4, x4), x4)
}

/// Whether `r / 255` is the byte nearest to the linear value of the sRGB byte `b`.
///
/// Up to ten the curve is `b / 255 / 12.92`. Above, it is the power 12/5 of
/// `(b / 255 + 0.055) / 1.055`, which is `(40 b + 561) / 10761`. The value
/// reaches a bound `v` just if its fifth power, the twelfth power of that
/// fraction, reaches `v` to the fifth.
pub open spec fn is_linear_byte(b: int, r: int) -> bool {
    if b <= 10 {
        1292 * r <= 100 * b + 646 < 1292 * (r + 1)
    } else {
        // (2 r - 1) / 510 <= ((40 b + 561) / 10761)^(12/5) < (2 r + 1) / 510
        &&& times(power5(2 * r - 1), power12(10761)) <= times(power12(40 * b + 561), power5(510))
        &&& times(power12(40 * b + 561), power5(510)) < times(power5(2 * r + 1), power12(10761))
    }
}

/// The linear byte of each sRGB byte.
pub const LINEAR_BYTES: [u8; 256] = [
    0, 0, 0, 0, 0, 0, 0, 1, 1, 1, 1, 1, 1, 1, 1, 1,
    1, 1, 2, 2, 2, 2, 2, 2, 2, 2, 3, 3, 3, 3, 3, 3,
    4, 4, 4, 4, 4, 5, 5, 5, 5, 6, 6, 6, 6, 7, 7, 7,
    8, 8, 8, 8, 9, 9, 9, 10, 10, 10, 11, 11, 12, 12, 12, 13,
    13, 13, 14, 14, 15, 15, 16, 16, 17, 17, 17, 18, 18, 19, 19, 20,
    20, 21, 22, 22, 23, 23, 24, 24, 25, 25, 26, 27, 27, 28, 29, 29,
    30, 30, 31, 32, 32, 33, 34, 35, 35, 36, 37, 37, 38, 39, 40, 41,
    41, 42, 43, 44, 45, 45, 46, 47, 48, 49, 50, 51, 51, 52, 53, 54,
    55, 56, 57, 58, 59, 60, 61, 62, 63, 64, 65, 66, 67, 68, 69, 70,
    71, 72, 73, 74, 76, 77, 78, 79, 80, 81, 82, 84, 85, 86, 87, 88,
    90, 91, 92, 93, 95, 96, 97, 99, 100, 101, 103, 104, 105, 107, 108, 109,
    111, 112, 114, 115, 116, 118, 119, 121, 122, 124, 125, 127, 128, 130, 131, 133,
    134, 136, 138, 139, 141, 142, 144, 146, 147, 149, 151, 152, 154, 156, 157, 159,
    161, 163, 164, 166, 168, 170, 171, 173, 175, 177, 179, 181, 183, 184, 186, 188,
    190, 192, 194, 196, 198, 200, 202, 204, 206, 208, 210, 212, 214, 216, 218, 220,
    222, 224, 226, 229, 231, 233, 235, 237, 239, 242, 244, 246, 248, 250, 253, 255,
];

/// Evaluates a fifth power, given its square and fourth power.
proof fn lemma_power5(x: int, x2: int, x4: int, x5: int)
    requires
        times(x, x) == x2,
        times(x2, x2) == x4,
        times(x4, x) == x5,
    ensures
        power5(x) == x5,
{
}

/// Evaluates a twelfth power, given its powers on the way.
proof fn lemma_power12(x: int, x2: int, x4: int, x8: int, x12: int)
    requires
        times(x, x) == x2,
        times(x2, x2) == x4,
        times(x4, x4) == x8,
        times(x8, x4) == x12,
    ensures
        power12(x) == x12,
{
}

/// The scale of both sides of the comparison.
proof fn lemma_scale()
    ensures
        power12(10761) == 2411190793574749699868207333899670437295870570721int,
        power5(510) == 34502525100000int,
{
    assert(times(13409436424372641int, 13409436424372641int) == 179812985219291719373090429314881int) by (nonlinear_arith);
    assert(times(179812985219291719373090429314881int, 13409436424372641int) == 2411190793574749699868207333899670437295870570721int) by (nonlinear_arith);
    lemma_power12(10761, 115799121, 13409436424372641int, 179812985219291719373090429314881int, 2411190793574749699868207333899670437295870570721int);
    lemma_power5(510, 260100, 67652010000int, 34502525100000int);
}

proof fn lemma_linear_bytes_0(b: int)
    requires
        0 <= b < 16,
    ensures
        is_linear_byte(b, LINEAR_BYTES@[b] as int),
{
    lemma_scale();
    if b == 0 {
        assert(LINEAR_BYTES@[0] == 0);
    }
    if b == 1 {
        assert(LINEAR_BYTES@[1] == 0);
    }
    if b == 2 {
        assert(LINEAR_BYTES@[2] == 0);
    }
    if b == 3 {
        assert(LINEAR_BYTES@[3] == 0);
    }
    if b == 4 {
        assert(LINEAR_BYTES@[4] == 0);
    }
    if b == 5 {
        assert(LINEAR_BYTES@[5] == 0);
    }
    if b == 6 {
        assert(LINEAR_BYTES@[6] == 0);
    }
    if b == 7 {
        assert(LINEAR_BYTES@[7] == 1);
    }
    if b == 8 {
        assert(LINEAR_BYTES@[8] == 1);
    }
    if b == 9 {
        assert(LINEAR_BYTES@[9] == 1);
    }
    if b == 10 {
        assert(LINEAR_BYTES@[10] == 1);
    }
    if b == 11 {
        assert(LINEAR_BYTES@[11] == 1);
        lemma_power12(1001, 1002001, 1004006004001int, 1008028056070056028008001int, 1012066220495792924792495220066012001int);
        lemma_power5(1, 1, 1, 1);
        lemma_power5(3, 9, 81, 243);
    }
    if b == 12 {
        assert(LINEAR_BYTES@[12] == 1);
        lemma_power12(1041, 1083681, 1174364509761int, 1379132001786193864277121int, 1619603677173350133759907373813478081int);
        lemma_power5(1, 1, 1, 1);
        lemma_power5(3, 9, 81, 243);
    }
    if b == 13 {
        assert(LINEAR_BYTES@[13] == 1);
        lemma_power12(1081, 1168561, 1365534810721int, 1864685319290837296539841int, 2546292714532040957680139128170435361int);
        lemma_power5(1, 1, 1, 1);
        lemma_power5(3, 9, 81, 243);
    }
    if b == 14 {
        assert(LINEAR_BYTES@[14] == 1);
        lemma_power12(1121, 1256641, 1579146602881int, 2493703993390602717500161int, 3937924189753553958249466171720563841int);
        lemma_power5(1, 1, 1, 1);
        lemma_power5(3, 9, 81, 243);
    }
    if b == 15 {
        assert(LINEAR_BYTES@[15] == 1);
        lemma_power12(1161, 1347921, 1816891022241int, 3301092986699945956662081int, 5997726211117860626339223032292343521int);
        lemma_power5(1, 1, 1, 1);
        lemma_power5(3, 9, 81, 243);
    }
}

proof fn lemma_linear_bytes_1(b: int)
    requires
        16 <= b < 32,
    ensures
        is_linear_byte(b, LINEAR_BYTES@[b] as int),
{
    lemma_scale();
    if b == 16 {
        assert(LINEAR_BYTES@[16] == 1);
        lemma_power12(1201, 1442401, 2080520644801int, 4328566153443168808329601int, 9005671244625365875414592252255054401int);
        lemma_power5(1, 1, 1, 1);
        lemma_power5(3, 9, 81, 243);
    }
    if b == 17 {
        assert(LINEAR_BYTES@[17] == 1);
        lemma_power12(1241, 1540081, 2371849486561int, 5625669986899679319606721int, 13343242469989631990424751024294776481int);
        lemma_power5(1, 1, 1, 1);
        lemma_power5(3, 9, 81, 243);
    }
    if b == 18 {
        assert(LINEAR_BYTES@[18] == 2);
        lemma_power12(1281, 1640961, 2692753003521int, 7250918737971366638397441int, 19524933209959096306041806378870389761int);
        lemma_power5(3, 9, 81, 243);
        lemma_power5(5, 25, 625, 3125);
    }
    if b == 19 {
        assert(LINEAR_BYTES@[19] == 2);
        lemma_power12(1321, 1745041, 3045168091681int, 9273048706592103221405761int, 28237992033918040251592353854549574241int);
        lemma_power5(3, 9, 81, 243);
        lemma_power5(5, 25, 625, 3125);
    }
    if b == 20 {
        assert(LINEAR_BYTES@[20] == 2);
        lemma_power12(1361, 1852321, 3431093087041int, 11772399771940539202135681int, 40392199475388229022149792822424809921int);
        lemma_power5(3, 9, 81, 243);
        lemma_power5(5, 25, 625, 3125);
    }
    if b == 21 {
        assert(LINEAR_BYTES@[21] == 2);
        lemma_power12(1401, 1962801, 3852587765601int, 14842432491658505718891201int, 57181773829122325618269532275809376801int);
        lemma_power5(3, 9, 81, 243);
        lemma_power5(5, 25, 625, 3125);
    }
    if b == 22 {
        assert(LINEAR_BYTES@[22] == 2);
        lemma_power12(1441, 2076481, 4311773343361int, 18591389364518496002776321int, 80161857077976052655814171936413354881int);
        lemma_power5(3, 9, 81, 243);
        lemma_power5(5, 25, 625, 3125);
    }
    if b == 23 {
        assert(LINEAR_BYTES@[23] == 2);
        lemma_power12(1481, 2193361, 4810832476321int, 23144109115224845025695041int, 111342431767040569517667932968199624161int);
        lemma_power5(3, 9, 81, 243);
        lemma_power5(5, 25, 625, 3125);
    }
    if b == 24 {
        assert(LINEAR_BYTES@[24] == 2);
        lemma_power12(1521, 2313441, 5352009260481int, 28644003124274380508351361int, 153302969978363180764235968430119864641int);
        lemma_power5(3, 9, 81, 243);
        lemma_power5(5, 25, 625, 3125);
    }
    if b == 25 {
        assert(LINEAR_BYTES@[25] == 2);
        lemma_power12(1561, 2436721, 5937609231841int, 35255203390043470088249281int, 209331621119154227538287873838930556321int);
        lemma_power5(3, 9, 81, 243);
        lemma_power5(5, 25, 625, 3125);
    }
    if b == 26 {
        assert(LINEAR_BYTES@[26] == 3);
        lemma_power12(1601, 2563201, 6569999366401int, 43164891674509541447692801int, 283593310952295487233770750853288979201int);
        lemma_power5(5, 25, 625, 3125);
        lemma_power5(7, 49, 2401, 16807);
    }
    if b == 27 {
        assert(LINEAR_BYTES@[27] == 3);
        lemma_power12(1641, 2692881, 7251608080161int, 52585819748256304201785921int, 381331755388345298440078000130329213281int);
        lemma_power5(5, 25, 625, 3125);
        lemma_power5(7, 49, 2401, 16807);
    }
    if b == 28 {
        assert(LINEAR_BYTES@[28] == 3);
        lemma_power12(1681, 2825761, 7984925229121int, 63759030914653054346432641int, 509111094534718962173411120845918138561int);
        lemma_power5(5, 25, 625, 3125);
        lemma_power5(7, 49, 2401, 16807);
    }
    if b == 29 {
        assert(LINEAR_BYTES@[29] == 3);
        lemma_power12(1721, 2961841, 8772502109281int, 76956793257339594066336961int, 675103631173513427581457302209791435041int);
        lemma_power5(5, 25, 625, 3125);
        lemma_power5(7, 49, 2401, 16807);
    }
    if b == 30 {
        assert(LINEAR_BYTES@[30] == 3);
        lemma_power12(1761, 3101121, 9616951456641int, 92485755319389451703002881int, 889431019337345501745963874546769582721int);
        lemma_power5(5, 25, 625, 3125);
        lemma_power5(7, 49, 2401, 16807);
    }
    if b == 31 {
        assert(LINEAR_BYTES@[31] == 3);
        lemma_power12(1801, 3243601, 10520947447201int, 110690335186765238682734401int, 1164567199413020763479999952155253861601int);
        lemma_power5(5, 25, 625, 3125);
        lemma_power5(7, 49, 2401, 16807);
    }
}

proof fn lemma_linear_bytes_2(b: int)
    requires
        32 <= b < 48,
    ensures
        is_linear_byte(b, LINEAR_BYTES@[b] as int),
{
    lemma_scale();
    if b == 32 {
        assert(LINEAR_BYTES@[32] == 4);
        lemma_power12(1841, 3389281, 11487225696961int, 131956354212921132204635521int, 1515812422991955541481119495194202351681int);
        lemma_power5(7, 49, 2401, 16807);
        lemma_power5(9, 81, 6561, 59049);
    }
    if b == 33 {
        assert(LINEAR_BYTES@[33] == 4);
        lemma_power12(1881, 3538161, 12518583261921int, 156714926885648624488610241int, 1961848860603854179312473231289785932961int);
        lemma_power5(7, 49, 2401, 16807);
        lemma_power5(9, 81, 6561, 59049);
    }
    if b == 34 {
        assert(LINEAR_BYTES@[34] == 4);
        lemma_power12(1921, 3690241, 13617878638081int, 185446618601502831383362561int, 2525389545957760018298730737392924285441int);
        lemma_power5(7, 49, 2401, 16807);
        lemma_power5(9, 81, 6561, 59049);
    }
    if b == 35 {
        assert(LINEAR_BYTES@[35] == 4);
        lemma_power12(1961, 3845521, 14788031761441int, 218685883377387805134396481int, 3233933789163593286110962056658901889121int);
        lemma_power5(7, 49, 2401, 16807);
        lemma_power5(9, 81, 6561, 59049);
    }
    if b == 36 {
        assert(LINEAR_BYTES@[36] == 4);
        lemma_power12(2001, 4004001, 16032024008001int, 257025793793120448112016001int, 4120643696766821435161351921760264024001int);
        lemma_power5(7, 49, 2401, 16807);
        lemma_power5(9, 81, 6561, 59049);
    }
    if b == 37 {
        assert(LINEAR_BYTES@[37] == 5);
        lemma_power12(2041, 4165681, 17352898193761int, 301123075723033776299325121int, 5225358076813989645847753823084192770081int);
        lemma_power5(9, 81, 6561, 59049);
        lemma_power5(11, 121, 14641, 161051);
    }
    if b == 38 {
        assert(LINEAR_BYTES@[38] == 5);
        lemma_power12(2081, 4330561, 18753758574721int, 351703460678921433340227841int, 6595761791466372886726169685705563007361int);
        lemma_power5(9, 81, 6561, 59049);
        lemma_power5(11, 121, 14641, 161051);
    }
    if b == 39 {
        assert(LINEAR_BYTES@[39] == 5);
        lemma_power12(2121, 4498641, 20237770846881int, 409567368850866507947428161int, 8288730557163823588333902330866878415841int);
        lemma_power5(9, 81, 6561, 59049);
        lemma_power5(11, 121, 14641, 161051);
    }
    if b == 40 {
        assert(LINEAR_BYTES@[40] == 5);
        lemma_power12(2161, 4669921, 21808162146241int, 475595936196738859470430081int, 10371873292671770224373660963936287475521int);
        lemma_power5(9, 81, 6561, 59049);
        lemma_power5(11, 121, 14641, 161051);
    }
    if b == 41 {
        assert(LINEAR_BYTES@[41] == 6);
        lemma_power12(2201, 4844401, 23468221048801int, 550757399195386308423537601int, 12925296388580059904591789259454879466401int);
        lemma_power5(11, 121, 14641, 161051);
        lemma_power5(13, 169, 28561, 371293);
    }
    if b == 42 {
        assert(LINEAR_BYTES@[42] == 6);
        lemma_power12(2241, 5022081, 25221297570561int, 636113851142786200773854721int, 16043616728427755199098257252924460468481int);
        lemma_power5(11, 121, 14641, 161051);
        lemma_power5(13, 169, 28561, 371293);
    }
    if b == 43 {
        assert(LINEAR_BYTES@[43] == 6);
        lemma_power12(2281, 5202961, 27070803167521int, 732828384134665006789285441int, 19838252942481985608409625286427009361761int);
        lemma_power5(11, 121, 14641, 161051);
        lemma_power5(13, 169, 28561, 371293);
    }
    if b == 44 {
        assert(LINEAR_BYTES@[44] == 6);
        lemma_power12(2321, 5387041, 29020210735681int, 842172631143334767246533761int, 24440027231602518497955196419007013826241int);
        lemma_power5(11, 121, 14641, 161051);
        lemma_power5(13, 169, 28561, 371293);
    }
    if b == 45 {
        assert(LINEAR_BYTES@[45] == 7);
        lemma_power12(2361, 5574321, 31073054611041int, 965534722860736351799103681int, 30002113172307997730763746970987886341921int);
        lemma_power5(13, 169, 28561, 371293);
        lemma_power5(15, 225, 50625, 759375);
    }
    if b == 46 {
        assert(LINEAR_BYTES@[46] == 7);
        lemma_power12(2401, 5764801, 33232930569601int, 1104427674243920646305299201int, 36703368217294125441230211032033660188801int);
        lemma_power5(13, 169, 28561, 371293);
        lemma_power5(15, 225, 50625, 759375);
    }
    if b == 47 {
        assert(LINEAR_BYTES@[47] == 7);
        lemma_power12(2441, 5958481, 35503495827361int, 1260498215963439937916224321int, 44752093150853974476336611073807165446881int);
        lemma_power5(13, 169, 28561, 371293);
        lemma_power5(15, 225, 50625, 759375);
    }
}

proof fn lemma_linear_bytes_3(b: int)
    requires
        48 <= b < 64,
    ensures
        is_linear_byte(b, LINEAR_BYTES@[b] as int),
{
    lemma_scale();
    if b == 48 {
        assert(LINEAR_BYTES@[48] == 8);
        lemma_power12(2481, 6155361, 37888469040321int, 1435536086219362918723783041int, 54390264558985909678266505557515884996161int);
        lemma_power5(15, 225, 50625, 759375);
        lemma_power5(17, 289, 83521, 1419857);
    }
    if b == 49 {
        assert(LINEAR_BYTES@[49] == 8);
        lemma_power12(2521, 6355441, 40391630304481int, 1631483798653867880768679361int, 65898290442977348006820958542476690516641int);
        lemma_power5(15, 225, 50625, 759375);
        lemma_power5(17, 289, 83521, 1419857);
    }
    if b == 50 {
        assert(LINEAR_BYTES@[50] == 8);
        lemma_power12(2561, 6558721, 43016821155841int, 1850446902353609827208417281int, 79600343456925208350554324952070658488321int);
        lemma_power5(15, 225, 50625, 759375);
        lemma_power5(17, 289, 83521, 1419857);
    }
    if b == 51 {
        assert(LINEAR_BYTES@[51] == 8);
        lemma_power12(2601, 6765201, 45767944570401int, 2094704750199298376445300801int, 95870330898477161150869439346099166191201int);
        lemma_power5(15, 225, 50625, 759375);
        lemma_power5(17, 289, 83521, 1419857);
    }
    if b == 52 {
        assert(LINEAR_BYTES@[52] == 9);
        lemma_power12(2641, 6974881, 48648964964161int, 2366721792084164488014433921int, 115138565543018852925152744231592467705281int);
        lemma_power5(17, 289, 83521, 1419857);
        lemma_power5(19, 361, 130321, 2476099);
    }
    if b == 53 {
        assert(LINEAR_BYTES@[53] == 9);
        lemma_power12(2681, 7187761, 51663908193121int, 2669159409787235191031720641int, 137899206700052752861345887605561949910561int);
        lemma_power5(17, 289, 83521, 1419857);
        lemma_power5(19, 361, 130321, 2476099);
    }
    if b == 54 {
        assert(LINEAR_BYTES@[54] == 9);
        lemma_power12(2721, 7403841, 54816861553281int, 3004888310551576648001864961int, 164718546502578219794651038691027268487041int);
        lemma_power5(17, 289, 83521, 1419857);
        lemma_power5(19, 361, 130321, 2476099);
    }
    if b == 55 {
        assert(LINEAR_BYTES@[55] == 10);
        lemma_power12(2761, 7623121, 58111973780641int, 3377001496681907038786370881int, 196244222432364396797724130069889563914721int);
        lemma_power5(19, 361, 130321, 2476099);
        lemma_power5(21, 441, 194481, 4084101);
    }
    if b == 56 {
        assert(LINEAR_BYTES@[56] == 10);
        lemma_power12(2801, 7845601, 61553455051201int, 3788827828740221901531542401int, 233215443453100729165264327840861957473601int);
        lemma_power5(19, 361, 130321, 2476099);
        lemma_power5(21, 441, 194481, 4084101);
    }
    if b == 57 {
        assert(LINEAR_BYTES@[57] == 10);
        lemma_power12(2841, 8071281, 65145576980961int, 4243946200182315719356483521int, 276474323887033971028377078685708527243681int);
        lemma_power5(19, 361, 130321, 2476099);
        lemma_power5(21, 441, 194481, 4084101);
    }
    if b == 58 {
        assert(LINEAR_BYTES@[58] == 11);
        lemma_power12(2881, 8300161, 68892672625921int, 4746200341542324693601098241int, 326978426346909813212274374500482964104961int);
        lemma_power5(21, 441, 194481, 4084101);
        lemma_power5(23, 529, 279841, 6436343);
    }
    if b == 59 {
        assert(LINEAR_BYTES@[59] == 11);
        lemma_power12(2921, 8532241, 72799136482081int, 5299714272536656796434090561int, 385814622642428699327673718868298107737441int);
        lemma_power5(21, 441, 194481, 4084101);
        lemma_power5(23, 529, 279841, 6436343);
    }
    if b == 60 {
        assert(LINEAR_BYTES@[60] == 12);
        lemma_power12(2961, 8767521, 76869424485441int, 5908908420722916347620964481int, 454214389638146655905960544684397562621121int);
        lemma_power5(23, 529, 279841, 6436343);
        lemma_power5(25, 625, 390625, 9765625);
    }
    if b == 61 {
        assert(LINEAR_BYTES@[61] == 12);
        lemma_power12(3001, 9006001, 81108054012001int, 6578516425613671512252024001int, 533570665567509427777788496100940594036001int);
        lemma_power5(23, 529, 279841, 6436343);
        lemma_power5(25, 625, 390625, 9765625);
    }
    if b == 62 {
        assert(LINEAR_BYTES@[62] == 12);
        lemma_power12(3041, 9247681, 85519603877761int, 7313602647409154268230373121int, 625456401325775024977323681485951504062081int);
        lemma_power5(23, 529, 279841, 6436343);
        lemma_power5(25, 625, 390625, 9765625);
    }
    if b == 63 {
        assert(LINEAR_BYTES@[63] == 13);
        lemma_power12(3081, 9492561, 90108714338721int, 8119580399777223544319915841int, 731644950793803892662130557176324687579361int);
        lemma_power5(25, 625, 390625, 9765625);
        lemma_power5(27, 729, 531441, 14348907);
    }
}

proof fn lemma_linear_bytes_4(b: int)
    requires
        64 <= b < 80,
    ensures
        is_linear_byte(b, LINEAR_BYTES@[b] as int),
{
    lemma_scale();
    if b == 64 {
        assert(LINEAR_BYTES@[64] == 13);
        lemma_power12(3121, 9740641, 94880087090881int, 9002230926373163381553356161int, 854132454306508084926716088976616568267841int);
        lemma_power5(25, 625, 390625, 9765625);
        lemma_power5(27, 729, 531441, 14348907);
    }
    if b == 65 {
        assert(LINEAR_BYTES@[65] == 13);
        lemma_power12(3161, 9991921, 99838485270241int, 9967723141056129122800198081int, 995162379996172700946900124381595614607521int);
        lemma_power5(25, 625, 390625, 9765625);
        lemma_power5(27, 729, 531441, 14348907);
    }
    if b == 66 {
        assert(LINEAR_BYTES@[66] == 14);
        lemma_power12(3201, 10246401, 104988733452801int, 11022634152023295787294745601int, 1157252398934514977862613193989161635878401int);
        lemma_power5(27, 729, 531441, 14348907);
        lemma_power5(29, 841, 707281, 20511149);
    }
    if b == 67 {
        assert(LINEAR_BYTES@[67] == 14);
        lemma_power12(3241, 10504081, 110335717654561int, 12173970590347003938924102721int, 1343223781791456321991140327569285558160481int);
        lemma_power5(27, 729, 531441, 14348907);
        lemma_power5(29, 841, 707281, 20511149);
    }
    if b == 68 {
        assert(LINEAR_BYTES@[68] == 15);
        lemma_power12(3281, 10764961, 115884385331521int, 13429190763664439509076173441int, 1556233517146992670039792927852060880333761int);
        lemma_power5(29, 841, 707281, 20511149);
        lemma_power5(31, 961, 923521, 28629151);
    }
    if b == 69 {
        assert(LINEAR_BYTES@[69] == 15);
        lemma_power12(3321, 11029041, 121639745379681int, 14796227656033625186847661761int, 1799809364659724391824229775021798010078241int);
        lemma_power5(29, 841, 707281, 20511149);
        lemma_power5(31, 961, 923521, 28629151);
    }
    if b == 70 {
        assert(LINEAR_BYTES@[70] == 16);
        lemma_power12(3361, 11296321, 127606868135041int, 16283512795233742141412071681int, 2077888070036645013966367337122332679873921int);
        lemma_power5(31, 961, 923521, 28629151);
        lemma_power5(33, 1089, 1185921, 39135393);
    }
    if b == 71 {
        assert(LINEAR_BYTES@[71] == 16);
        lemma_power12(3401, 11566801, 133790885373601int, 17900001009052041993347707201int, 2394856983189423986330005799899359643000801int);
        lemma_power5(31, 961, 923521, 28629151);
        lemma_power5(33, 1089, 1185921, 39135393);
    }
    if b == 72 {
        assert(LINEAR_BYTES@[72] == 17);
        lemma_power12(3441, 11840481, 140196990311361int, 19655196092363850103725672321int, 2755599336129035279868027777276642849538881int);
        lemma_power5(33, 1089, 1185921, 39135393);
        lemma_power5(35, 1225, 1500625, 52521875);
    }
    if b == 73 {
        assert(LINEAR_BYTES@[73] == 17);
        lemma_power12(3481, 12117361, 146830437604321int, 21559177407076402401757871041int, 3165543453070218706859776348972393302368161int);
        lemma_power5(33, 1089, 1185921, 39135393);
        lemma_power5(35, 1225, 1500625, 52521875);
    }
    if b == 74 {
        assert(LINEAR_BYTES@[74] == 17);
        lemma_power12(3521, 12397441, 153696543348481int, 23622627437271499123805007361int, 3630716181917615599724167923637945793168641int);
        lemma_power5(33, 1089, 1185921, 39135393);
        lemma_power5(35, 1225, 1500625, 52521875);
    }
    if b == 75 {
        assert(LINEAR_BYTES@[75] == 18);
        lemma_power12(3561, 12680721, 160800685079841int, 25856860322146199988544585281int, 4157800853814867213285436219511105718420321int);
        lemma_power5(35, 1225, 1500625, 52521875);
        lemma_power5(37, 1369, 1874161, 69343957);
    }
    if b == 76 {
        assert(LINEAR_BYTES@[76] == 18);
        lemma_power12(3601, 12967201, 168148301774401int, 28273851389615026485098908801int, 4754200095785554537508649456929177175403201int);
        lemma_power5(35, 1225, 1500625, 52521875);
        lemma_power5(37, 1369, 1874161, 69343957);
    }
    if b == 77 {
        assert(LINEAR_BYTES@[77] == 19);
        lemma_power12(3641, 13256881, 175744893848161int, 30886267713701378102923081921int, 5428103840710331038971434572589723538197281int);
        lemma_power5(37, 1369, 1874161, 69343957);
        lemma_power5(39, 1521, 2313441, 90224199);
    }
    if b == 78 {
        assert(LINEAR_BYTES@[78] == 19);
        lemma_power12(3681, 13549761, 183596023157121int, 33707499719110110484253008641int, 6188562898998389447365756181668551713682561int);
        lemma_power5(37, 1369, 1874161, 69343957);
        lemma_power5(39, 1521, 2313441, 90224199);
    }
    if b == 79 {
        assert(LINEAR_BYTES@[79] == 20);
        lemma_power12(3721, 13845841, 191707312997281int, 36751693856637464631913392961int, 7045568477354647704120453346932251277539041int);
        lemma_power5(39, 1521, 2313441, 90224199);
        lemma_power5(41, 1681, 2825761, 115856201);
    }
}

proof fn lemma_linear_bytes_5(b: int)
    requires
        80 <= b < 96,
    ensures
        is_linear_byte(b, LINEAR_BYTES@[b] as int),
{
    lemma_scale();
    if b == 80 {
        assert(LINEAR_BYTES@[80] == 20);
        lemma_power12(3761, 14145121, 200084448104641int, 40033786373338777457285738881int, 8010138052048586644428403654184859690246721int);
        lemma_power5(39, 1521, 2313441, 90224199);
        lemma_power5(41, 1681, 2825761, 115856201);
    }
    if b == 81 {
        assert(LINEAR_BYTES@[81] == 21);
        lemma_power12(3801, 14447601, 208733174655201int, 43569538201638645105236350401int, 9094408027089091393127389350972864793085601int);
        lemma_power5(41, 1681, 2825761, 115856201);
        lemma_power5(43, 1849, 3418801, 147008443);
    }
    if b == 82 {
        assert(LINEAR_BYTES@[82] == 22);
        lemma_power12(3841, 14753281, 217659300264961int, 47375570991832451644804331521int, 10311733631735235807858877656087795784135681int);
        lemma_power5(43, 1849, 3418801, 147008443);
        lemma_power5(45, 2025, 4100625, 184528125);
    }
    if b == 83 {
        assert(LINEAR_BYTES@[83] == 22);
        lemma_power12(3881, 15062161, 226868693989921int, 51469404312692416866449586241int, 11676796536859736112127363177739093874276961int);
        lemma_power5(43, 1849, 3418801, 147008443);
        lemma_power5(45, 2025, 4100625, 184528125);
    }
    if b == 84 {
        assert(LINEAR_BYTES@[84] == 23);
        lemma_power12(3921, 15374241, 236367286326081int, 55869494045155558078660818561int, 13205720695864561198606801731649793823189441int);
        lemma_power5(45, 2025, 4100625, 184528125);
        lemma_power5(47, 2209, 4879681, 229345007);
    }
    if b == 85 {
        assert(LINEAR_BYTES@[85] == 23);
        lemma_power12(3961, 15689521, 246161069209441int, 60595271994335201948723532481int, 14916196943162449617794226972321787555353121int);
        lemma_power5(45, 2025, 4100625, 184528125);
        lemma_power5(47, 2209, 4879681, 229345007);
    }
    if b == 86 {
        assert(LINEAR_BYTES@[86] == 24);
        lemma_power12(4001, 16008001, 256256096016001int, 65667186745361923584448032001int, 16827616911720133299913515134734081056048001int);
        lemma_power5(47, 2209, 4879681, 229345007);
        lemma_power5(49, 2401, 5764801, 282475249);
    }
    if b == 87 {
        assert(LINEAR_BYTES@[87] == 24);
        lemma_power12(4041, 16329681, 266658481561761int, 71106745788824031205657421121int, 18961216860845959558672783116624495747354081int);
        lemma_power5(47, 2209, 4879681, 229345007);
        lemma_power5(49, 2401, 5764801, 282475249);
    }
    if b == 88 {
        assert(LINEAR_BYTES@[88] == 25);
        lemma_power12(4081, 16654561, 277374402102721int, 76936558941841955906235603841int, 21340232036334165569067416239150705544151361int);
        lemma_power5(49, 2401, 5764801, 282475249);
        lemma_power5(51, 2601, 6765201, 345025251);
    }
    if b == 89 {
        assert(LINEAR_BYTES@[89] == 25);
        lemma_power12(4121, 16982641, 288410095334881int, 83180383091075147159535284161int, 23990062217288906714342887816658340790119841int);
        lemma_power5(49, 2401, 5764801, 282475249);
        lemma_power5(51, 2601, 6765201, 345025251);
    }
    if b == 90 {
        assert(LINEAR_BYTES@[90] == 26);
        lemma_power12(4161, 17313921, 299771860394241int, 89863168284224315871945966081int, 26938449137482677153701642585270130273739521int);
        lemma_power5(51, 2601, 6765201, 345025251);
        lemma_power5(53, 2809, 7890481, 418195493);
    }
    if b == 91 {
        assert(LINEAR_BYTES@[91] == 27);
        lemma_power12(4201, 17648401, 311466057856801int, 97011105196856107941421953601int, 30215666503996192680652593001658692524290401int);
        lemma_power5(53, 2809, 7890481, 418195493);
        lemma_power5(55, 3025, 9150625, 503284375);
    }
    if b == 92 {
        assert(LINEAR_BYTES@[92] == 27);
        lemma_power12(4241, 17986081, 323499109738561int, 104651674001641532429770350721int, 33854723372181145280751685365724627587852481int);
        lemma_power5(53, 2809, 7890481, 418195493);
        lemma_power5(55, 3025, 9150625, 503284375);
    }
    if b == 93 {
        assert(LINEAR_BYTES@[93] == 28);
        lemma_power12(4281, 18326961, 335877499495521int, 112813694667363709609499061441int, 37891581673725314502267544149059000483305761int);
        lemma_power5(55, 3025, 9150625, 503284375);
        lemma_power5(57, 3249, 10556001, 601692057);
    }
    if b == 94 {
        assert(LINEAR_BYTES@[94] == 29);
        lemma_power12(4321, 18671041, 348607772023681int, 121527378715314745298024789761int, 42365388733823985492449266442753147538330241int);
        lemma_power5(57, 3249, 10556001, 601692057);
        lemma_power5(59, 3481, 12117361, 714924299);
    }
    if b == 95 {
        assert(LINEAR_BYTES@[95] == 29);
        lemma_power12(4361, 19018321, 361696533659041int, 130824382460965779044041039681int, 47318725654215961953331046349296976805405921int);
        lemma_power5(57, 3249, 10556001, 601692057);
        lemma_power5(59, 3481, 12117361, 714924299);
    }
}

proof fn lemma_linear_bytes_6(b: int)
    requires
        96 <= b < 112,
    ensures
        is_linear_byte(b, LINEAR_BYTES@[b] as int),
{
    lemma_scale();
    if b == 96 {
        assert(LINEAR_BYTES@[96] == 30);
        lemma_power12(4401, 19368801, 375150452177601int, 140737861769058494882846115201int, 52797872481170998957785964913787573757812801int);
        lemma_power5(59, 3481, 12117361, 714924299);
        lemma_power5(61, 3721, 13845841, 844596301);
    }
    if b == 97 {
        assert(LINEAR_BYTES@[97] == 30);
        lemma_power12(4441, 19722481, 388976256795361int, 151302528350530624529431120321int, 58853091121463388194206267048700963465630881int);
        lemma_power5(59, 3481, 12117361, 714924299);
        lemma_power5(61, 3721, 13845841, 844596301);
    }
    if b == 98 {
        assert(LINEAR_BYTES@[98] == 31);
        lemma_power12(4481, 20079361, 403180738168321int, 162554707629952214030127959041int, 65538927014979735500382131378349320451740161int);
        lemma_power5(61, 3721, 13845841, 844596301);
        lemma_power5(63, 3969, 15752961, 992436543);
    }
    if b == 99 {
        assert(LINEAR_BYTES@[99] == 32);
        lemma_power12(4521, 20439441, 417770748392481int, 174532398212413666045617335361int, 72914530619934570332106084378781757427820641int);
        lemma_power5(63, 3969, 15752961, 992436543);
        lemma_power5(65, 4225, 17850625, 1160290625);
    }
    if b == 100 {
        assert(LINEAR_BYTES@[100] == 32);
        lemma_power12(4561, 20802721, 432753201003841int, 187275332979070811090096753281int, 81043999815753084058878280367457064110352321int);
        lemma_power5(63, 3969, 15752961, 992436543);
        lemma_power5(65, 4225, 17850625, 1160290625);
    }
    if b == 101 {
        assert(LINEAR_BYTES@[101] == 33);
        lemma_power12(4601, 21169201, 448135070978401int, 200825041840816502203408516801int, 89996744379574653834176336487529407316615201int);
        lemma_power5(65, 4225, 17850625, 1160290625);
        lemma_power5(67, 4489, 20151121, 1350125107);
    }
    if b == 102 {
        assert(LINEAR_BYTES@[102] == 34);
        lemma_power12(4641, 21538881, 463923394732161int, 215224916179812468684927729921int, 99847873745083404610958065994491043540689281int);
        lemma_power5(67, 4489, 20151121, 1350125107);
        lemma_power5(69, 4761, 22667121, 1564031349);
    }
    if b == 103 {
        assert(LINEAR_BYTES@[103] == 35);
        lemma_power12(4681, 21911761, 480125270121121int, 230520275008879405670010296641int, 110678609307033323274103707071697535209454561int);
        lemma_power5(69, 4761, 22667121, 1564031349);
        lemma_power5(71, 5041, 25411681, 1804229351);
    }
    if b == 104 {
        assert(LINEAR_BYTES@[104] == 35);
        lemma_power12(4721, 22287841, 496747856441281int, 246758432879007517481800920961int, 122576722591456699736248442828088801818591041int);
        lemma_power5(69, 4761, 22667121, 1564031349);
        lemma_power5(71, 5041, 25411681, 1804229351);
    }
    if b == 105 {
        assert(LINEAR_BYTES@[105] == 36);
        lemma_power12(4761, 22667121, 513798374428641int, 263988769565513973843201106881int, 135637000670178176410246734932581577148578721int);
        lemma_power5(71, 5041, 25411681, 1804229351);
        lemma_power5(73, 5329, 28398241, 2073071593);
    }
    if b == 106 {
        assert(LINEAR_BYTES@[106] == 37);
        lemma_power12(4801, 23049601, 531284106259201int, 282262801563637979185797158401int, 149961740258955606307469379041353483760697601int);
        lemma_power5(73, 5329, 28398241, 2073071593);
        lemma_power5(75, 5625, 31640625, 2373046875int);
    }
    if b == 107 {
        assert(LINEAR_BYTES@[107] == 37);
        lemma_power12(4841, 23435281, 549212395548961int, 301634255424628396444548179521int, 165661272001387346088479219508213975973027681int);
        lemma_power5(73, 5329, 28398241, 2073071593);
        lemma_power5(75, 5625, 31640625, 2373046875int);
    }
    if b == 108 {
        assert(LINEAR_BYTES@[108] == 38);
        lemma_power12(4881, 23824161, 567590647353921int, 322159142963643107879034074241int, 182854516505718575114987280317150842516448961int);
        lemma_power5(75, 5625, 31640625, 2373046875int);
        lemma_power5(77, 5929, 35153041, 2706784157int);
    }
    if b == 109 {
        assert(LINEAR_BYTES@[109] == 39);
        lemma_power12(4921, 24216241, 586426328170081int, 343895838371043536614063546561int, 201669573768902710790704294519280800070641441int);
        lemma_power5(77, 5929, 35153041, 2706784157int);
        lemma_power5(79, 6241, 38950081, 3077056399int);
    }
    if b == 110 {
        assert(LINEAR_BYTES@[110] == 40);
        lemma_power12(4961, 24611521, 605726965933441int, 366905157258931993744442100481int, 222244347691784912609154638315386948880085121int);
        lemma_power5(79, 6241, 38950081, 3077056399int);
        lemma_power5(81, 6561, 43046721, 3486784401int);
    }
    if b == 111 {
        assert(LINEAR_BYTES@[111] == 41);
        lemma_power12(5001, 25010001, 625500150020001int, 391250437675043757000700040001int, 244727207461130921264439975309402501650060001int);
        lemma_power5(81, 6561, 43046721, 3486784401int);
        lemma_power5(83, 6889, 47458321, 3939040643int);
    }
}

proof fn lemma_linear_bytes_7(b: int)
    requires
        112 <= b < 128,
    ensures
        is_linear_byte(b, LINEAR_BYTES@[b] as int),
{
    lemma_scale();
    if b == 112 {
        assert(LINEAR_BYTES@[112] == 41);
        lemma_power12(5041, 25411681, 645753531245761int, 416997623116370028124580469121int, 269277687648484922418719360310447236922646081int);
        lemma_power5(81, 6561, 43046721, 3486784401int);
        lemma_power5(83, 6889, 47458321, 3939040643int);
    }
    if b == 113 {
        assert(LINEAR_BYTES@[113] == 42);
        lemma_power12(5081, 25816561, 666494821866721int, 444215347575152157255087291841int, 296067228952564591363176708803228568132723361int);
        lemma_power5(83, 6889, 47458321, 3939040643int);
        lemma_power5(85, 7225, 52200625, 4437053125int);
    }
    if b == 114 {
        assert(LINEAR_BYTES@[114] == 43);
        lemma_power12(5121, 26224641, 687731795578881int, 472975022650151763777893212161int, 325279961591150783612128983285310959543971841int);
        lemma_power5(85, 7225, 52200625, 4437053125int);
        lemma_power5(87, 7569, 57289761, 4984209207int);
    }
    if b == 115 {
        assert(LINEAR_BYTES@[115] == 44);
        lemma_power12(5161, 26635921, 709472287518241int, 503350926756365624242907734081int, 357113533430265298872944071101703660264871521int);
        lemma_power5(87, 7569, 57289761, 4984209207int);
        lemma_power5(89, 7921, 62742241, 5584059449int);
    }
    if b == 116 {
        assert(LINEAR_BYTES@[116] == 45);
        lemma_power12(5201, 27050401, 731724194260801int, 535420296466618439106805161601int, 391779985022915573999755642325025367544702401int);
        lemma_power5(89, 7921, 62742241, 5584059449int);
        lemma_power5(91, 8281, 68574961, 6240321451int);
    }
    if b == 117 {
        assert(LINEAR_BYTES@[117] == 45);
        lemma_power12(5241, 27468081, 754495473822561int, 569263420018730831209312598721int, 429506673816883875386980722427223470549544481int);
        lemma_power5(89, 7921, 62742241, 5584059449int);
        lemma_power5(91, 8281, 68574961, 6240321451int);
    }
    if b == 118 {
        assert(LINEAR_BYTES@[118] == 46);
        lemma_power12(5281, 27888961, 777794145659521int, 604963733022224170044057949441int, 470537249881015400504302971967542965818277761int);
        lemma_power5(91, 8281, 68574961, 6240321451int);
        lemma_power5(93, 8649, 74805201, 6956883693int);
    }
    if b == 119 {
        assert(LINEAR_BYTES@[119] == 47);
        lemma_power12(5321, 28313041, 801628290667681int, 642607916398788057036777917761int, 515132685592280524463873958034883975598582241int);
        lemma_power5(93, 8649, 74805201, 6956883693int);
        lemma_power5(95, 9025, 81450625, 7737809375int);
    }
    if b == 120 {
        assert(LINEAR_BYTES@[120] == 48);
        lemma_power12(5361, 28740321, 826006051183041int, 682285996591000548195686007681int, 563572361821618136055967105782825040262937921int);
        lemma_power5(95, 9025, 81450625, 7737809375int);
        lemma_power5(97, 9409, 88529281, 8587340257int);
    }
    if b == 121 {
        assert(LINEAR_BYTES@[121] == 49);
        lemma_power12(5401, 29170801, 850935630981601int, 724091448074055431650800523201int, 616155213255277534907636768978229996004624801int);
        lemma_power5(97, 9409, 88529281, 8587340257int);
        lemma_power5(99, 9801, 96059601, 9509900499int);
    }
    if b == 122 {
        assert(LINEAR_BYTES@[122] == 50);
        lemma_power12(5441, 29604481, 876425295279361int, 768121298205515118751032568321int, 673200935590134692566324659334747289013722881int);
        lemma_power5(99, 9801, 96059601, 9509900499int);
        lemma_power5(101, 10201, 104060401, 10510100501int);
    }
    if b == 123 {
        assert(LINEAR_BYTES@[123] == 51);
        lemma_power12(5481, 30041361, 902483370732321int, 814476234448371948539834047041int, 735051257446334857619162203740940017333112161int);
        lemma_power5(101, 10201, 104060401, 10510100501int);
        lemma_power5(103, 10609, 112550881, 11592740743int);
    }
    if b == 124 {
        assert(LINEAR_BYTES@[124] == 51);
        lemma_power12(5521, 30481441, 929118245436481int, 863260714002964946582205663361int, 802071279948678615673705817020180831594472641int);
        lemma_power5(101, 10201, 104060401, 10510100501int);
        lemma_power5(103, 10609, 112550881, 11592740743int);
    }
    if b == 125 {
        assert(LINEAR_BYTES@[125] == 52);
        lemma_power12(5561, 30924721, 956338368927841int, 914583075883563320267864921281int, 874650887039494779440512536302976065834284321int);
        lemma_power5(103, 10609, 112550881, 11592740743int);
        lemma_power5(105, 11025, 121550625, 12762815625int);
    }
    if b == 126 {
        assert(LINEAR_BYTES@[126] == 53);
        lemma_power12(5601, 31371201, 984152252182401int, 968555655475692213867374124801int, 953206229700404143650863609751056109589827201int);
        lemma_power5(105, 11025, 121550625, 12762815625int);
        lemma_power5(107, 11449, 131079601, 14025517307int);
    }
    if b == 127 {
        assert(LINEAR_BYTES@[127] == 54);
        lemma_power12(5641, 31820881, 1012568467616161int, 1025294901610540487770028377921int, 1038181287378447544613982120662832072475181281int);
        lemma_power5(107, 11449, 131079601, 14025517307int);
        lemma_power5(109, 11881, 141158161, 15386239549int);
    }
}

proof fn lemma_linear_bytes_8(b: int)
    requires
        128 <= b < 144,
    ensures
        is_linear_byte(b, LINEAR_BYTES@[b] as int),
{
    lemma_scale();
    if b == 128 {
        assert(LINEAR_BYTES@[128] == 55);
        lemma_power12(5681, 32273761, 1041595649085121int, 1084921496193054527484303584641int, 1130049510033605262524850523991160232437226561int);
        lemma_power5(109, 11881, 141158161, 15386239549int);
        lemma_power5(111, 12321, 151807041, 16850581551int);
    }
    if b == 129 {
        assert(LINEAR_BYTES@[129] == 56);
        lemma_power12(5721, 32729841, 1071242491885281int, 1147560476420586329133664448961int, 1229315544349849149027785662304903598891643041int);
        lemma_power5(111, 12321, 151807041, 16850581551int);
        lemma_power5(113, 12769, 163047361, 18424351793int);
    }
    if b == 130 {
        assert(LINEAR_BYTES@[130] == 57);
        lemma_power12(5761, 33189121, 1101517752752641int, 1213341359629228349332532474881int, 1336517047780621619104143926267902161938910721int);
        lemma_power5(113, 12769, 163047361, 18424351793int);
        lemma_power5(115, 13225, 174900625, 20113571875int);
    }
    if b == 131 {
        assert(LINEAR_BYTES@[131] == 58);
        lemma_power12(5801, 33651601, 1132430249863201int, 1282398270805231848479213966401int, 1452226594232105602433393480134868038860309601int);
        lemma_power5(115, 13225, 174900625, 20113571875int);
        lemma_power5(117, 13689, 187388721, 21924480357int);
    }
    if b == 132 {
        assert(LINEAR_BYTES@[132] == 59);
        lemma_power12(5841, 34117281, 1163988862832961int, 1354870072799169697654588027521int, 1577053675323916621626717177761056769093919681int);
        lemma_power5(117, 13689, 187388721, 21924480357int);
        lemma_power5(119, 14161, 200533921, 23863536599int);
    }
    if b == 133 {
        assert(LINEAR_BYTES@[133] == 60);
        lemma_power12(5881, 34586161, 1196202532717921int, 1430900499280768860467354562241int, 1711646801306993407141953091770019448890620961int);
        lemma_power5(119, 14161, 200533921, 23863536599int);
        lemma_power5(121, 14641, 214358881, 25937424601int);
    }
    if b == 134 {
        assert(LINEAR_BYTES@[134] == 61);
        lemma_power12(5921, 35058241, 1229080262014081int, 1510638290472602002338642274561int, 1856695705862569070624247768336640236850093441int);
        lemma_power5(121, 14641, 214358881, 25937424601int);
        lemma_power5(123, 15129, 228886641, 28153056843int);
    }
    if b == 135 {
        assert(LINEAR_BYTES@[135] == 62);
        lemma_power12(5961, 35533521, 1262631114657441int, 1594237331701091920870776668481int, 2012933659154254192656366168518578001536817121int);
        lemma_power5(123, 15129, 228886641, 28153056843int);
        lemma_power5(125, 15625, 244140625, 30517578125int);
    }
    if b == 136 {
        assert(LINEAR_BYTES@[136] == 63);
        lemma_power12(6001, 36012001, 1296864216024001int, 1681856794803546732097008048001int, 2181139893657540751672428303233567522376072001int);
        lemma_power5(125, 15625, 244140625, 30517578125int);
        lemma_power5(127, 16129, 260144641, 33038369407int);
    }
    if b == 137 {
        assert(LINEAR_BYTES@[137] == 64);
        lemma_power12(6041, 36493681, 1331788752929761int, 1773661282430207988560999517121int, 2362142147447527311799676432431642695029938081int);
        lemma_power5(127, 16129, 260144641, 33038369407int);
        lemma_power5(129, 16641, 276922881, 35723051649int);
    }
    if b == 138 {
        assert(LINEAR_BYTES@[138] == 65);
        lemma_power12(6081, 36978561, 1367413973630721int, 1869820975280558146326874979841int, 2556819329786458159876276387468109632453295361int);
        lemma_power5(129, 16641, 276922881, 35723051649int);
        lemma_power5(131, 17161, 294499921, 38579489651int);
    }
    if b == 139 {
        assert(LINEAR_BYTES@[139] == 66);
        lemma_power12(6121, 37466641, 1403749187822881int, 1970511782313398039172627140161int, 2766104314017850182637800792527549392829823841int);
        lemma_power5(131, 17161, 294499921, 38579489651int);
        lemma_power5(133, 17689, 312900721, 41615795893int);
    }
    if b == 140 {
        assert(LINEAR_BYTES@[140] == 67);
        lemma_power12(6161, 37957921, 1440803766642241int, 2075915493970469259371685502081int, 2990986862943640444453043412774036305588003521int);
        lemma_power5(133, 17689, 312900721, 41615795893int);
        lemma_power5(135, 18225, 332150625, 44840334375int);
    }
    if b == 141 {
        assert(LINEAR_BYTES@[141] == 68);
        lemma_power12(6201, 38452401, 1478587142664801int, 2186219938453660585619444369601int, 3232516692035015106033032561056726506697114401int);
        lemma_power5(135, 18225, 332150625, 44840334375int);
        lemma_power5(137, 18769, 352275361, 48261724457int);
    }
    if b == 142 {
        assert(LINEAR_BYTES@[142] == 69);
        lemma_power12(6241, 38950081, 1517108809906561int, 2301619141096101839813550846721int, 3491806676006468166913468087133050334443236481int);
        lemma_power5(137, 18769, 352275361, 48261724457int);
        lemma_power5(139, 19321, 373301041, 51888844699int);
    }
    if b == 143 {
        assert(LINEAR_BYTES@[143] == 70);
        lemma_power12(6281, 39450961, 1556378323823521int, 2422313486867712795548752837441int, 3770036204466279388600595514981019676885249761int);
        lemma_power5(139, 19321, 373301041, 51888844699int);
        lemma_power5(141, 19881, 395254161, 55730836701int);
    }
}

proof fn lemma_linear_bytes_9(b: int)
    requires
        144 <= b < 160,
    ensures
        is_linear_byte(b, LINEAR_BYTES@[b] as int),
{
    lemma_scale();
    if b == 144 {
        assert(LINEAR_BYTES@[144] == 71);
        lemma_power12(6321, 39955041, 1596405301311681int, 2548509886056039002339107045761int, 4068454692545088756192734179747365202190834241int);
        lemma_power5(141, 19881, 395254161, 55730836701int);
        lemma_power5(143, 20449, 418161601, 59797108943int);
    }
    if b == 145 {
        assert(LINEAR_BYTES@[145] == 72);
        lemma_power12(6361, 40462321, 1637199420707041int, 2680421943163470630732346975681int, 4388385252597675292938276082047316643052469921int);
        lemma_power5(143, 20449, 418161601, 59797108943int);
        lemma_power5(145, 21025, 442050625, 64097340625int);
    }
    if b == 146 {
        assert(LINEAR_BYTES@[146] == 73);
        lemma_power12(6401, 40972801, 1678770421785601int, 2818270129062204684633210931201int, 4731228533271517525271264808006639946383436801int);
        lemma_power5(145, 21025, 442050625, 64097340625int);
        lemma_power5(147, 21609, 466948881, 68641485507int);
    }
    if b == 147 {
        assert(LINEAR_BYTES@[147] == 74);
        lemma_power12(6441, 41486481, 1721128105763361int, 2962281956448575168304530016321int, 5098466732439319225930572598958296139493814881int);
        lemma_power5(147, 21609, 466948881, 68641485507int);
        lemma_power5(149, 22201, 492884401, 73439775749int);
    }
    if b == 148 {
        assert(LINEAR_BYTES@[148] == 76);
        lemma_power12(6481, 42003361, 1764282335296321int, 3112692158638640036666876135041int, 5491667790701526318255082298991076203946484161int);
        lemma_power5(151, 22801, 519885601, 78502725751int);
        lemma_power5(153, 23409, 547981281, 83841135993int);
    }
    if b == 149 {
        assert(LINEAR_BYTES@[149] == 77);
        lemma_power12(6521, 42523441, 1808243034480481int, 3269742871747177998669569991361int, 5912489772379039350012267036632722088293124641int);
        lemma_power5(153, 23409, 547981281, 83841135993int);
        lemma_power5(155, 24025, 577200625, 89466096875int);
    }
    if b == 150 {
        assert(LINEAR_BYTES@[150] == 78);
        lemma_power12(6561, 43046721, 1853020188851841int, 3433683820292512484657849089281int, 6362685441135942358474828762538534230890216321int);
        lemma_power5(155, 24025, 577200625, 89466096875int);
        lemma_power5(157, 24649, 607573201, 95388992557int);
    }
    if b == 151 {
        assert(LINEAR_BYTES@[151] == 79);
        lemma_power12(6601, 43573201, 1898623845386401int, 3604772506269844329812995732801int, 6844107037597226150216172208063298603995039201int);
        lemma_power5(157, 24649, 607573201, 95388992557int);
        lemma_power5(159, 25281, 639128961, 101621504799int);
    }
    if b == 152 {
        assert(LINEAR_BYTES@[152] == 80);
        lemma_power12(6641, 44102881, 1945064112500161int, 3783274401736038966894225025921int, 7358711266557286199586212183691989330341673281int);
        lemma_power5(159, 25281, 639128961, 101621504799int);
        lemma_power5(161, 25921, 671898241, 108175616801int);
    }
    if b == 153 {
        assert(LINEAR_BYTES@[153] == 81);
        lemma_power12(6681, 44635761, 1992351160049121int, 3969463144949078162663132872641int, 7908564501611528017455605136468604363396998561int);
        lemma_power5(161, 25921, 671898241, 108175616801int);
        lemma_power5(163, 26569, 705911761, 115063617043int);
    }
    if b == 154 {
        assert(LINEAR_BYTES@[154] == 82);
        lemma_power12(6721, 45171841, 2040495219329281int, 4163620740105650573523503976961int, 8495848215285822751082046575616799562496695041int);
        lemma_power5(163, 26569, 705911761, 115063617043int);
        lemma_power5(165, 27225, 741200625, 122298103125int);
    }
    if b == 155 {
        assert(LINEAR_BYTES@[155] == 84);
        lemma_power12(6761, 45711121, 2089506583076641int, 4366037760720619637061279842881int, 9122864642986931055498004015709068734061242721int);
        lemma_power5(167, 27889, 777796321, 129891985607int);
        lemma_power5(169, 28561, 815730721, 137858491849int);
    }
    if b == 156 {
        assert(LINEAR_BYTES@[156] == 85);
        lemma_power12(6801, 46253601, 2139395605467201int, 4577013556692371557321486774401int, 9792042689351463357460827061171281850091921601int);
        lemma_power5(169, 28561, 815730721, 137858491849int);
        lemma_power5(171, 29241, 855036081, 146211169851int);
    }
    if b == 157 {
        assert(LINEAR_BYTES@[157] == 86);
        lemma_power12(6841, 46799281, 2190172702116961int, 4796856465098310382810923875521int, 10505944085831580275770018980250088695146811681int);
        lemma_power5(171, 29241, 855036081, 146211169851int);
        lemma_power5(173, 29929, 895745041, 154963892093int);
    }
    if b == 158 {
        assert(LINEAR_BYTES@[158] == 87);
        lemma_power12(6881, 47348161, 2241848350081921int, 5025884024765031417367411050241int, 11267269808622570265916067945496708632996792961int);
        lemma_power5(173, 29929, 895745041, 154963892093int);
        lemma_power5(175, 30625, 937890625, 164130859375int);
    }
    if b == 159 {
        assert(LINEAR_BYTES@[159] == 88);
        lemma_power12(6921, 47900241, 2294433087858081int, 5264423194657968445188397002561int, 12078866766310785968137508252583287024161545441int);
        lemma_power5(175, 30625, 937890625, 164130859375int);
        lemma_power5(177, 31329, 981506241, 173726604657int);
    }
}

proof fn lemma_linear_bytes_10(b: int)
    requires
        160 <= b < 176,
    ensures
        is_linear_byte(b, LINEAR_BYTES@[b] as int),
{
    lemma_scale();
    if b == 160 {
        assert(LINEAR_BYTES@[160] == 90);
        lemma_power12(6961, 48455521, 2347937515381441int, 5512810576135574492463727236481int, 12943734766900291055904399625240873065525549121int);
        lemma_power5(179, 32041, 1026625681, 183765996899int);
        lemma_power5(181, 32761, 1073283121, 194264244901int);
    }
    if b == 161 {
        assert(LINEAR_BYTES@[161] == 91);
        lemma_power12(7001, 49014001, 2402372294028001int, 5771392639113360089209372056001int, 13865033774163081768849776988332570463234084001int);
        lemma_power5(181, 32761, 1073283121, 194264244901int);
        lemma_power5(183, 33489, 1121513121, 205236901143int);
    }
    if b == 162 {
        assert(LINEAR_BYTES@[162] == 92);
        lemma_power12(7041, 49575681, 2457748146613761int, 6040525952183377236050914565121int, 14846091463551019302860761429806379390069230081int);
        lemma_power5(183, 33489, 1121513121, 205236901143int);
        lemma_power5(185, 34225, 1171350625, 216699865625int);
    }
    if b == 163 {
        assert(LINEAR_BYTES@[163] == 93);
        lemma_power12(7081, 50140561, 2514075857394721int, 6320577416735001521857598667841int, 15890411088207759731471503138523573618505867361int);
        lemma_power5(185, 34225, 1171350625, 216699865625int);
        lemma_power5(187, 34969, 1222830961, 228669389707int);
    }
    if b == 164 {
        assert(LINEAR_BYTES@[164] == 95);
        lemma_power12(7121, 50708641, 2571366272066881int, 6611924505123129079279737068161int, 17001679665926117444389469946048668560647675841int);
        lemma_power5(189, 35721, 1275989841, 241162079949int);
        lemma_power5(191, 36481, 1330863361, 254194901951int);
    }
    if b == 165 {
        assert(LINEAR_BYTES@[165] == 96);
        lemma_power12(7161, 51279921, 2629630297766241int, 6914955502930169306394279270081int, 18183776498210567902954588455584902186243135521int);
        lemma_power5(191, 36481, 1330863361, 254194901951int);
        lemma_power5(193, 37249, 1387488001, 267785184193int);
    }
    if b == 166 {
        assert(LINEAR_BYTES@[166] == 97);
        lemma_power12(7201, 51854401, 2688878903068801int, 7230069755368478523815339577601int, 19440782032926108923134756348909279429981526401int);
        lemma_power5(193, 37249, 1387488001, 267785184193int);
        lemma_power5(195, 38025, 1445900625, 281950621875int);
    }
    if b == 167 {
        assert(LINEAR_BYTES@[167] == 99);
        lemma_power12(7241, 52432081, 2749123117990561int, 7557677917870143977778485094721int, 20776987082343581209432535367909669739268928481int);
        lemma_power5(197, 38809, 1506138481, 296709280757int);
        lemma_power5(199, 39601, 1568239201, 312079600999int);
    }
    if b == 168 {
        assert(LINEAR_BYTES@[168] == 100);
        lemma_power12(7281, 53012961, 2810374033987521int, 7898202210911291840859583725441int, 22196902408727924401557872331146284853684221761int);
        lemma_power5(199, 39601, 1568239201, 312079600999int);
        lemma_power5(201, 40401, 1632240801, 328080401001int);
    }
    if b == 169 {
        assert(LINEAR_BYTES@[169] == 101);
        lemma_power12(7321, 53597041, 2872642803955681int, 8252076679118357103141012173761int, 23705268689959841810298467949776827747315086241int);
        lemma_power5(201, 40401, 1632240801, 328080401001int);
        lemma_power5(203, 41209, 1698181681, 344730881243int);
    }
    if b == 170 {
        assert(LINEAR_BYTES@[170] == 103);
        lemma_power12(7361, 54184321, 2935940642231041int, 8619747454704017487790023943681int, 25307066878033094094763740962802661905174001921int);
        lemma_power5(205, 42025, 1766100625, 362050628125int);
        lemma_power5(207, 42849, 1836036801, 380059617807int);
    }
    if b == 171 {
        assert(LINEAR_BYTES@[171] == 104);
        lemma_power12(7401, 54774801, 3000278824589601int, 9001673025280757766166077339201int, 27007528963629269597880185567640310744894248801int);
        lemma_power5(207, 42849, 1836036801, 380059617807int);
        lemma_power5(209, 43681, 1908029761, 398778220049int);
    }
    if b == 172 {
        assert(LINEAR_BYTES@[172] == 105);
        lemma_power12(7441, 55368481, 3065668688247361int, 9398324506100295088725923464321int, 28812149160339518589220720471895708034905906881int);
        lemma_power5(209, 43681, 1908029761, 398778220049int);
        lemma_power5(211, 44521, 1982119441, 418227202051int);
    }
    if b == 173 {
        assert(LINEAR_BYTES@[173] == 107);
        lemma_power12(7481, 55965361, 3132121631860321int, 9810185916767360189147254223041int, 30726695522478523401295578481530169600291856161int);
        lemma_power5(213, 45369, 2058346161, 438427732293int);
        lemma_power5(215, 46225, 2136750625, 459401384375int);
    }
    if b == 174 {
        assert(LINEAR_BYTES@[174] == 108);
        lemma_power12(7521, 56565441, 3199649115524481int, 10237754462476593560243710319361int, 32757222010820040991482673174729972447523776641int);
        lemma_power5(215, 46225, 2136750625, 459401384375int);
        lemma_power5(217, 47089, 2217373921int, 481170140857int);
    }
    if b == 175 {
        assert(LINEAR_BYTES@[175] == 109);
        lemma_power12(7561, 57168721, 3268262660775841int, 10681540819821579941396049257281int, 34910081020975834895860890462404877679278148321int);
        lemma_power5(217, 47089, 2217373921int, 481170140857int);
        lemma_power5(219, 47961, 2300257521int, 503756397099int);
    }
}

proof fn lemma_linear_bytes_11(b: int)
    requires
        176 <= b < 192,
    ensures
        is_linear_byte(b, LINEAR_BYTES@[b] as int),
{
    lemma_scale();
    if b == 176 {
        assert(LINEAR_BYTES@[176] == 111);
        lemma_power12(7601, 57775201, 3337973850590401int, 11142069427225308698376273340801int, 37191936389540847425260787352875926210532251201int);
        lemma_power5(221, 48841, 2385443281int, 527182965101int);
        lemma_power5(223, 49729, 2472973441int, 551473077343int);
    }
    if b == 177 {
        assert(LINEAR_BYTES@[177] == 112);
        lemma_power12(7641, 58384881, 3408794329384161int, 11619878780041611917593517673921int, 39609776893537189340731164049897819337140165281int);
        lemma_power5(223, 49729, 2472973441int, 551473077343int);
        lemma_power5(225, 50625, 2562890625int, 576650390625int);
    }
    if b == 178 {
        assert(LINEAR_BYTES@[178] == 114);
        lemma_power12(7681, 58997761, 3480735803013121int, 12115521730377396277942498160641int, 42170930259108083687177674339567657648088770561int);
        lemma_power5(227, 51529, 2655237841int, 602738989907int);
        lemma_power5(229, 52441, 2750058481int, 629763392149int);
    }
    if b == 179 {
        assert(LINEAR_BYTES@[179] == 115);
        lemma_power12(7721, 59613841, 3553810038773281int, 12629565791685749004587319504961int, 44883077695840435019011471780259879612633747041int);
        lemma_power5(229, 52441, 2750058481int, 629763392149int);
        lemma_power5(231, 53361, 2847396321int, 657748550151int);
    }
    if b == 180 {
        assert(LINEAR_BYTES@[180] == 116);
        lemma_power12(7761, 60233121, 3628028865400641int, 13162593448180262450165443210881int, 47754268973531348494148240522891283413515574721int);
        lemma_power5(231, 53361, 2847396321int, 657748550151int);
        lemma_power5(233, 54289, 2947295521int, 686719856393int);
    }
    if b == 181 {
        assert(LINEAR_BYTES@[181] == 118);
        lemma_power12(7801, 60855601, 3703404173071201int, 13715202469121186090048615582401int, 50792938058659840339599494291534240237455533601int);
        lemma_power5(235, 55225, 3049800625int, 716703146875int);
        lemma_power5(237, 56169, 3154956561int, 747724704957int);
    }
    if b == 182 {
        assert(LINEAR_BYTES@[182] == 119);
        lemma_power12(7841, 61481281, 3779947913400961int, 14288006228024278959449555723521int, 54007919328280308631296002701760262274131703681int);
        lemma_power5(237, 56169, 3154956561int, 747724704957int);
        lemma_power5(239, 57121, 3262808641int, 779811265199int);
    }
    if b == 183 {
        assert(LINEAR_BYTES@[183] == 121);
        lemma_power12(7881, 62110161, 3857672099445921int, 14881634026843499801315203538241int, 57408464379519219349929784468880662114834964961int);
        lemma_power5(241, 58081, 3373402561int, 812990017201int);
        lemma_power5(243, 59049, 3486784401int, 847288609443int);
    }
    if b == 184 {
        assert(LINEAR_BYTES@[184] == 122);
        lemma_power12(7921, 62742241, 3936588805702081int, 15496731425178936435099327730561int, 61004259453331056987939675478443460082004997441int);
        lemma_power5(243, 59049, 3486784401int, 847288609443int);
        lemma_power5(245, 60025, 3603000625int, 882735153125int);
    }
    if b == 185 {
        assert(LINEAR_BYTES@[185] == 124);
        lemma_power12(7961, 63377521, 4016710168105441int, 16133960574561640097659293804481int, 64805443491654042859966952317695530260846281121int);
        lemma_power5(247, 61009, 3722098081int, 919358226007int);
        lemma_power5(249, 62001, 3844124001int, 957186876249int);
    }
    if b == 186 {
        assert(LINEAR_BYTES@[186] == 125);
        lemma_power12(8001, 64016001, 4098048384032001int, 16794000557867294748673792064001int, 68822626847600590543106631010283632644224096001int);
        lemma_power5(249, 62001, 3844124001int, 957186876249int);
        lemma_power5(251, 63001, 3969126001int, 996250626251int);
    }
    if b == 187 {
        assert(LINEAR_BYTES@[187] == 127);
        lemma_power12(8041, 64657681, 4180615712297761int, 17477547733910915574130325613121int, 73066910668822100948311788126158305842040522081int);
        lemma_power5(253, 64009, 4097152081int, 1036579476493int);
        lemma_power5(255, 65025, 4228250625int, 1078203909375int);
    }
    if b == 188 {
        assert(LINEAR_BYTES@[188] == 128);
        lemma_power12(8081, 65302561, 4264424473158721int, 18185316087275035162583258355841int, 77549906974702655383943961688770480246290439361int);
        lemma_power5(255, 65025, 4228250625int, 1078203909375int);
        lemma_power5(257, 66049, 4362470401int, 1121154893057int);
    }
    if b == 189 {
        assert(LINEAR_BYTES@[189] == 130);
        lemma_power12(8121, 65950641, 4349487048310881int, 18918037583424100070035222996161int, 82283759448561601187646562979466643382997527841int);
        lemma_power5(259, 67081, 4499860561int, 1165463885299int);
        lemma_power5(261, 68121, 4640470641int, 1211162837301int);
    }
    if b == 190 {
        assert(LINEAR_BYTES@[190] == 131);
        lemma_power12(8161, 66601921, 4435815880890241int, 19676462529158064730446689038081int, 87281164966581100239803547432239215422230267521int);
        lemma_power5(261, 68121, 4640470641int, 1211162837301int);
        lemma_power5(263, 69169, 4784350561int, 1258284197543int);
    }
    if b == 191 {
        assert(LINEAR_BYTES@[191] == 133);
        lemma_power12(8201, 67256401, 4523423475472801int, 20461359938458433910030490785601int, 92555395885721586700631045996455081457397938401int);
        lemma_power5(265, 70225, 4931550625int, 1306860915625int);
        lemma_power5(267, 71289, 5082121521int, 1356926446107int);
    }
}

proof fn lemma_linear_bytes_12(b: int)
    requires
        192 <= b < 208,
    ensures
        is_linear_byte(b, LINEAR_BYTES@[b] as int),
{
    lemma_scale();
    if b == 192 {
        assert(LINEAR_BYTES@[192] == 134);
        lemma_power12(8241, 67914081, 4612322398074561int, 21273517903780269144640115342721int, 98120323113445919014715666292229026205026620481int);
        lemma_power5(267, 71289, 5082121521int, 1356926446107int);
        lemma_power5(269, 72361, 5236114321int, 1408514752349int);
    }
    if b == 193 {
        assert(LINEAR_BYTES@[193] == 136);
        lemma_power12(8281, 68574961, 4702525276151521int, 22113743972843938840712550613441int, 103990439982641976602358193567219214216215193761int);
        lemma_power5(271, 73441, 5393580481int, 1461660310351int);
        lemma_power5(273, 74529, 5554571841int, 1516398112593int);
    }
    if b == 194 {
        assert(LINEAR_BYTES@[194] == 138);
        lemma_power12(8321, 69239041, 4794044798599681int, 22982865530980655961378493301761int, 110180886955713709334758265469960582530971338241int);
        lemma_power5(275, 75625, 5719140625int, 1572763671875int);
        lemma_power5(277, 76729, 5887339441int, 1630793025157int);
    }
    if b == 195 {
        assert(LINEAR_BYTES@[195] == 139);
        lemma_power12(8361, 69906321, 4886893715755041int, 23881730189086111460504716911681int, 116707477182402365133827738486799030946627533921int);
        lemma_power5(277, 76729, 5887339441int, 1630793025157int);
        lemma_power5(279, 77841, 6059221281int, 1690522737399int);
    }
    if b == 196 {
        assert(LINEAR_BYTES@[196] == 141);
        lemma_power12(8401, 70576801, 4981084839393601int, 24811206177236775868585399747201int, 123586722936502966754818363276188415711537060801int);
        lemma_power5(281, 78961, 6234839521int, 1751989905401int);
        lemma_power5(283, 80089, 6414247921int, 1815232161643int);
    }
    if b == 197 {
        assert(LINEAR_BYTES@[197] == 142);
        lemma_power12(8441, 71250481, 5076631042731361int, 25772182744023705675551212912321int, 130835862957256253560226789338016823495249998881int);
        lemma_power5(283, 80089, 6414247921int, 1815232161643int);
        lemma_power5(285, 81225, 6597500625int, 1880287678125int);
    }
    if b == 198 {
        assert(LINEAR_BYTES@[198] == 144);
        lemma_power12(8481, 71927361, 5173545260424321int, 26765570561658955396716968311041int, 138472890721823420095530180580046711926369228161int);
        lemma_power5(287, 82369, 6784652161int, 1947195170207int);
        lemma_power5(289, 83521, 6975757441int, 2015993900449int);
    }
    if b == 199 {
        assert(LINEAR_BYTES@[199] == 146);
        lemma_power12(8521, 72607441, 5271840488568481int, 27792302136909960449240626647361int, 146516583675890244417878115640194178829286428641int);
        lemma_power5(291, 84681, 7170871761int, 2086723682451int);
        lemma_power5(293, 85849, 7370050801int, 2159424884693int);
    }
    if b == 200 {
        assert(LINEAR_BYTES@[200] == 147);
        lemma_power12(8561, 73290721, 5371529784699841int, 28853332227917520207618465425281int, 154986533450098780970362475999891032530998080321int);
        lemma_power5(293, 85849, 7370050801int, 2159424884693int);
        lemma_power5(295, 87025, 7573350625int, 2234138434375int);
    }
    if b == 201 {
        assert(LINEAR_BYTES@[201] == 149);
        lemma_power12(8601, 73977201, 5472626267794401int, 29949638266953274847893206948801int, 163903177090668872583156742451316488249201463201int);
        lemma_power5(297, 88209, 7780827681int, 2310905821257int);
        lemma_power5(299, 89401, 7992538801int, 2389769101499int);
    }
    if b == 202 {
        assert(LINEAR_BYTES@[202] == 151);
        lemma_power12(8641, 74666881, 5575143118268161int, 31082220789172833831403906321921int, 173287829333248492856754436902037658612870657281int);
        lemma_power5(301, 90601, 8208541201int, 2470770901501int);
        lemma_power5(303, 91809, 8428892481int, 2553954421743int);
    }
    if b == 203 {
        assert(LINEAR_BYTES@[203] == 152);
        lemma_power12(8681, 75359761, 5679093577977121int, 32252103867420978120058399448641int, 183162715949721544379719444735327027806512542561int);
        lemma_power5(303, 91809, 8428892481int, 2553954421743int);
        lemma_power5(305, 93025, 8653650625int, 2639363440625int);
    }
    if b == 204 {
        assert(LINEAR_BYTES@[204] == 154);
        lemma_power12(8721, 76055841, 5784490950217281int, 33460335553145622456261111032961int, 193551008198404392299682201600026926669302799041int);
        lemma_power5(307, 94249, 8882874001int, 2727042318307int);
        lemma_power5(309, 95481, 9116621361int, 2817036000549int);
    }
    if b == 205 {
        assert(LINEAR_BYTES@[205] == 156);
        lemma_power12(8761, 76755121, 5891348599724641int, 34707988323477488281781022578881int, 204476858408778290763622595180876028320301906721int);
        lemma_power5(311, 96721, 9354951841int, 2909390022551int);
        lemma_power5(313, 97969, 9597924961int, 3004150512793int);
    }
    if b == 206 {
        assert(LINEAR_BYTES@[206] == 157);
        lemma_power12(8801, 77457601, 5999679952675201int, 35996159534532702110996600390401int, 215965436732634147457610397100491268520951145601int);
        lemma_power5(313, 97969, 9597924961int, 3004150512793int);
        lemma_power5(315, 99225, 9845600625int, 3101364196875int);
    }
    if b == 207 {
        assert(LINEAR_BYTES@[207] == 159);
        lemma_power12(8841, 78163281, 6109498496684961int, 37325971880995798415106483571521int, 228042969094248956424991008138266010026048595681int);
        lemma_power5(317, 100489, 10098039121int, 3201078401357int);
        lemma_power5(319, 101761, 10355301121int, 3303341057599int);
    }
}

proof fn lemma_linear_bytes_13(b: int)
    requires
        208 <= b < 224,
    ensures
        is_linear_byte(b, LINEAR_BYTES@[b] as int),
{
    lemma_scale();
    if b == 208 {
        assert(LINEAR_BYTES@[208] == 161);
        lemma_power12(8881, 78872161, 6220817780809921int, 38698573862040870315046732026241int, 240736776372969900783434915846168403614405136961int);
        lemma_power5(321, 103041, 10617447681int, 3408200705601int);
        lemma_power5(323, 104329, 10884540241int, 3515706497843int);
    }
    if b == 209 {
        assert(LINEAR_BYTES@[209] == 163);
        lemma_power12(8921, 79584241, 6333651415546081int, 40115140253648875622007434458561int, 254075314852352775901339224047526078330380449441int);
        lemma_power5(325, 105625, 11156640625int, 3625908203125int);
        lemma_power5(327, 106929, 11433811041int, 3738856210407int);
    }
    if b == 210 {
        assert(LINEAR_BYTES@[210] == 164);
        lemma_power12(8961, 80299521, 6448013072829441int, 41576872587379370005593476372481int, 268088217970786202794939980804490087707499013121int);
        lemma_power5(327, 106929, 11433811041int, 3738856210407int);
        lemma_power5(329, 108241, 11716114081int, 3854601532649int);
    }
    if b == 211 {
        assert(LINEAR_BYTES@[211] == 166);
        lemma_power12(9001, 81018001, 6563916486036001int, 43084999635655203310826268072001int, 282806339409332285495497546254055855385346108001int);
        lemma_power5(331, 109561, 12003612721int, 3973195810651int);
        lemma_power5(333, 110889, 12296370321int, 4094691316893int);
    }
    if b == 212 {
        assert(LINEAR_BYTES@[212] == 168);
        lemma_power12(9041, 81739681, 6681375449981761int, 44640777903618979286335232661121int, 298261797553328111209594637408848550570943814081int);
        lemma_power5(335, 112225, 12594450625int, 4219140959375int);
        lemma_power5(337, 113569, 12897917761int, 4346598285457int);
    }
    if b == 213 {
        assert(LINEAR_BYTES@[213] == 170);
        lemma_power12(9081, 82464561, 6800403820922721int, 46245492127620343227239854043841int, 314488021365120996333723002218960769235807011361int);
        lemma_power5(339, 114921, 13206836241int, 4477117485699int);
        lemma_power5(341, 116281, 13521270961int, 4610753397701int);
    }
    if b == 214 {
        assert(LINEAR_BYTES@[214] == 171);
        lemma_power12(9121, 83192641, 6921015516554881int, 47900455780393426277375084924161int, 331519797706153844653995567278152128779879379841int);
        lemma_power5(341, 116281, 13521270961int, 4610753397701int);
        lemma_power5(343, 117649, 13841287201int, 4747561509943int);
    }
    if b == 215 {
        assert(LINEAR_BYTES@[215] == 173);
        lemma_power12(9161, 83923921, 7043224516014241int, 49607011582984039376664914806081int, 349393320147475608026388961984004170133549399521int);
        lemma_power5(345, 119025, 14166950625int, 4887597965625int);
        lemma_power5(347, 120409, 14498327281int, 5030919566507int);
    }
    if b == 216 {
        assert(LINEAR_BYTES@[216] == 175);
        lemma_power12(9201, 84658401, 7167044859876801int, 51366532023486474080600897993601int, 368146239308625827960132381556166409908946350401int);
        lemma_power5(349, 121801, 14835483601int, 5177583776749int);
        lemma_power5(351, 123201, 15178486401int, 5327648726751int);
    }
    if b == 217 {
        assert(LINEAR_BYTES@[217] == 177);
        lemma_power12(9241, 85396081, 7292490650158561int, 53180419882650031719934441590721int, 387817714765731794096838205592848544251716312481int);
        lemma_power5(353, 124609, 15527402881int, 5481173216993int);
        lemma_power5(355, 126025, 15882300625int, 5638216721875int);
    }
    if b == 218 {
        assert(LINEAR_BYTES@[218] == 179);
        lemma_power12(9281, 86136961, 7419576050315521int, 55050108766415666609843653501441int, 408448468570562189691268903308194763484478165761int);
        lemma_power5(357, 127449, 16243247601int, 5798839393557int);
        lemma_power5(359, 128881, 16610312161int, 5963102065799int);
    }
    if b == 219 {
        assert(LINEAR_BYTES@[219] == 181);
        lemma_power12(9321, 86881041, 7548315285243681int, 56977063645443393258987550429761int, 430080840423202413785266982046416620473159590241int);
        lemma_power5(361, 130321, 16983563041int, 6131066257801int);
        lemma_power5(363, 131769, 17363069361int, 6302794178043int);
    }
    if b == 220 {
        assert(LINEAR_BYTES@[220] == 183);
        lemma_power12(9361, 87628321, 7678722641279041int, 58962781401691371770012425879681int, 452758844541954285589852021523716873887413065921int);
        lemma_power5(365, 133225, 17748900625int, 6478348728125int);
        lemma_power5(367, 134689, 18141126721int, 6657793506607int);
    }
    if b == 221 {
        assert(LINEAR_BYTES@[221] == 184);
        lemma_power12(9401, 88378801, 7810812466197601int, 61008791382107849864227178155201int, 476528228275016761261857943831668008166311872801int);
        lemma_power5(367, 134689, 18141126721int, 6657793506607int);
        lemma_power5(369, 136161, 18539817921int, 6841192812849int);
    }
    if b == 222 {
        assert(LINEAR_BYTES@[222] == 186);
        lemma_power12(9441, 89132481, 7944599169215361int, 63116655959497404204316398360321int, 501436532499474841243362485093324963040526090881int);
        lemma_power5(371, 137641, 18945044881int, 7028611650851int);
        lemma_power5(373, 139129, 19356878641int, 7220115733093int);
    }
    if b == 223 {
        assert(LINEAR_BYTES@[223] == 188);
        lemma_power12(9481, 89889361, 8080097220988321int, 65287971100623187930112018399041int, 527533153854111233947774683872956274902178600161int);
        lemma_power5(375, 140625, 19775390625int, 7415771484375int);
        lemma_power5(377, 142129, 20200652641int, 7615646045657int);
    }
}

proof fn lemma_linear_bytes_14(b: int)
    requires
        224 <= b < 240,
    ensures
        is_linear_byte(b, LINEAR_BYTES@[b] as int),
{
    lemma_scale();
    if b == 224 {
        assert(LINEAR_BYTES@[224] == 190);
        lemma_power12(9521, 90649441, 8217321153612481int, 67524366941607155563596318975361int, 554869408853559787017664160915916268153581080641int);
        lemma_power5(379, 143641, 20632736881int, 7819807277899int);
        lemma_power5(381, 145161, 21071715921int, 8028323765901int);
    }
    if b == 225 {
        assert(LINEAR_BYTES@[225] == 192);
        lemma_power12(9561, 91412721, 8356285560623841int, 69827508370690500680461097593281int, 583498599932341420714787176595484304906050012321int);
        lemma_power5(383, 146689, 21517662721int, 8241264822143int);
        lemma_power5(385, 148225, 21970650625int, 8458700490625int);
    }
    if b == 226 {
        assert(LINEAR_BYTES@[226] == 194);
        lemma_power12(9601, 92179201, 8497005096998401int, 72199095618416805986699796556801int, 613476083468362521185554437079228414040002675201int);
        lemma_power5(387, 149769, 22430753361int, 8680701550707int);
        lemma_power5(389, 151321, 22898045041int, 8907339520949int);
    }
    if b == 227 {
        assert(LINEAR_BYTES@[227] == 196);
        lemma_power12(9641, 92948881, 8639494479152161int, 74640864855300669679861390969921int, 644859339836512698221412589969050323677533149281int);
        lemma_power5(391, 152881, 23372600161int, 9138686662951int);
        lemma_power5(393, 154449, 23854493601int, 9374815985193int);
    }
    if b == 228 {
        assert(LINEAR_BYTES@[228] == 198);
        lemma_power12(9681, 93721761, 8783768484941121int, 77154588797044836215746836736641int, 677708045544073708450082522354200502558668314561int);
        lemma_power5(395, 156025, 24343800625int, 9615801246875int);
        lemma_power5(397, 157609, 24840596881int, 9861716961757int);
    }
    if b == 229 {
        assert(LINEAR_BYTES@[229] == 200);
        lemma_power12(9721, 94497841, 8929841953661281int, 79742077317369123842480878560961int, 712084147500744418305945484557647403652503851041int);
        lemma_power5(399, 159201, 25344958401int, 10112638401999int);
        lemma_power5(401, 160801, 25856961601int, 10368641602001int);
    }
    if b == 230 {
        assert(LINEAR_BYTES@[230] == 202);
        lemma_power12(9761, 95277121, 9077729786048641int, 82405178068514705505044017946881int, 748051939477198161208586878747991065574420238721int);
        lemma_power5(403, 162409, 26376683281int, 10629803362243int);
        lemma_power5(405, 164025, 26904200625int, 10896201253125int);
    }
    if b == 231 {
        assert(LINEAR_BYTES@[231] == 204);
        lemma_power12(9801, 96059601, 9227446944279201int, 85145777109487563964501441198401int, 785678140807218961624989385416233772020578757601int);
        lemma_power5(407, 165649, 27439591201int, 11167913618807int);
        lemma_power5(409, 167281, 27982932961int, 11445019581049int);
    }
    if b == 232 {
        assert(LINEAR_BYTES@[232] == 206);
        lemma_power12(9841, 96845281, 9379008451968961int, 87965799542105206217317707419521int, 825031977389612088533438323161171244470897487681int);
        lemma_power5(411, 168921, 28534304241int, 11727599043051int);
        lemma_power5(413, 170569, 29093783761int, 12015732693293int);
    }
    if b == 233 {
        assert(LINEAR_BYTES@[233] == 208);
        lemma_power12(9881, 97634161, 9532429394173921int, 90867210154910986541297996514241int, 866185265047252497617159690575909536851707308961int);
        lemma_power5(415, 172225, 29661450625int, 12309502009375int);
        lemma_power5(417, 173889, 30237384321int, 12608989261857int);
    }
    if b == 234 {
        assert(LINEAR_BYTES@[234] == 210);
        lemma_power12(9921, 98426241, 9687724917390081int, 93852014075020651735848717186561int, 909212495301822162613359050480504740689287901441int);
        lemma_power5(419, 175561, 30821664721int, 12914277518099int);
        lemma_power5(421, 177241, 31414372081int, 13225450646101int);
    }
    if b == 235 {
        assert(LINEAR_BYTES@[235] == 212);
        lemma_power12(9961, 99221521, 9844910229553441int, 96922257427965986365402274940481int, 954190923623994320906014311721466363525483745121int);
        lemma_power5(423, 178929, 32015587041int, 13542593318343int);
        lemma_power5(425, 180625, 32625390625int, 13865791015625int);
    }
    if b == 236 {
        assert(LINEAR_BYTES@[236] == 214);
        lemma_power12(10001, 100020001, 10004000600040001int, 100080028005600700056002800080001int, 1001200660220049507920924079204950220006600120001int);
        lemma_power5(427, 182329, 33243864241int, 14195130030907int);
        lemma_power5(429, 184041, 33871089681int, 14530697473149int);
    }
    if b == 237 {
        assert(LINEAR_BYTES@[237] == 216);
        lemma_power12(10041, 100821681, 10165011359665761int, 103327455942133963136201635709121int, 1050324763417155172374667940529115722096779106081int);
        lemma_power5(431, 185761, 34507149121int, 14872581271151int);
        lemma_power5(433, 187489, 35152125121int, 15220870177393int);
    }
    if b == 238 {
        assert(LINEAR_BYTES@[238] == 218);
        lemma_power12(10081, 101626561, 10327957900686721int, 106666714398357261154563385731841int, 1101649335710807895141990337457237460307055583361int);
        lemma_power5(435, 189225, 35806100625int, 15575653771875int);
        lemma_power5(437, 190969, 36469158961int, 15937022465957int);
    }
    if b == 239 {
        assert(LINEAR_BYTES@[239] == 220);
        lemma_power12(10121, 102434641, 10492855676798881int, 110100020254130503047235322852161int, 1155263622539225025624558483901868459671293231841int);
        lemma_power5(439, 192721, 37141383841int, 16305067506199int);
        lemma_power5(441, 194481, 37822859361int, 16679880978201int);
    }
}

proof fn lemma_linear_bytes_15(b: int)
    requires
        240 <= b < 256,
    ensures
        is_linear_byte(b, LINEAR_BYTES@[b] as int),
{
    lemma_scale();
    if b == 240 {
        assert(LINEAR_BYTES@[240] == 222);
        lemma_power12(10161, 103245921, 10659720203138241int, 113629634809193581970184956574081int, 1211260113850781150211174855204549240440200531521int);
        lemma_power5(443, 196249, 38513670001int, 17061555810443int);
        lemma_power5(445, 198025, 39213900625int, 17450185778125int);
    }
    if b == 241 {
        assert(LINEAR_BYTES@[241] == 224);
        lemma_power12(10201, 104060401, 10828567056280801int, 117257864492369852051862561201601int, 1269734648531914468903714880493455422104626762401int);
        lemma_power5(447, 199809, 39923636481int, 17845865507007int);
        lemma_power5(449, 201601, 40642963201int, 18248690477249int);
    }
    if b == 242 {
        assert(LINEAR_BYTES@[242] == 226);
        lemma_power12(10241, 104878081, 10999411874242561int, 120987061579228248563197463838721int, 1330786521764279131645976806354051128399338004481int);
        lemma_power5(451, 203401, 41371966801int, 18658757027251int);
        lemma_power5(453, 205209, 42110733681int, 19076162357493int);
    }
    if b == 243 {
        assert(LINEAR_BYTES@[243] == 229);
        lemma_power12(10281, 105698961, 11172270356479521int, 124819624918271043242988892389441int, 1394518595381292130557273156206746968378473137761int);
        lemma_power5(457, 208849, 43617904801int, 19933382494057int);
        lemma_power5(459, 210681, 44386483761int, 20373396046299int);
    }
    if b == 244 {
        assert(LINEAR_BYTES@[244] == 231);
        lemma_power12(10321, 106523041, 11347158263887681int, 128758000665714490757904183557761int, 1461037411295617715391331693890183612493879842241int);
        lemma_power5(461, 212521, 45165175441int, 20821145878301int);
        lemma_power5(463, 214369, 45954068161int, 21276733558543int);
    }
    if b == 245 {
        assert(LINEAR_BYTES@[245] == 233);
        lemma_power12(10361, 107350321, 11524091418803041int, 132804683028929886517449150847681int, 1530453308070548756403684551534006920847530597921int);
        lemma_power5(465, 216225, 46753250625int, 21740261540625int);
        lemma_power5(467, 218089, 47562811921int, 22211833167107int);
    }
    if b == 246 {
        assert(LINEAR_BYTES@[246] == 235);
        lemma_power12(10401, 108180801, 11703085705001601int, 136962215018612820305427412563201int, 1602880540709683282752426085008844021429218684801int);
        lemma_power5(469, 219961, 48382841521int, 22691552673349int);
        lemma_power5(471, 221841, 49213429281int, 23179525191351int);
    }
    if b == 247 {
        assert(LINEAR_BYTES@[247] == 237);
        lemma_power12(10441, 109014481, 11884157067699361int, 141233189209748674430557479808321int, 1678437403740755838966710917112196927190734182881int);
        lemma_power5(473, 223729, 50054665441int, 23675856753593int);
        lemma_power5(475, 225625, 50906640625int, 24180654296875int);
    }
    if b == 248 {
        assert(LINEAR_BYTES@[248] == 239);
        lemma_power12(10481, 109851361, 12067321513552321int, 145620248511442679340068404487041int, 1757246357670967592344856632453841510247719972161int);
        lemma_power5(477, 227529, 51769445841int, 24694025666157int);
        lemma_power5(479, 229441, 52643172481int, 25216079618399int);
    }
    if b == 249 {
        assert(LINEAR_BYTES@[249] == 242);
        lemma_power12(10521, 110691441, 12252595110656481int, 150126086945683103881246787303361int, 1839434158892666557909175396535435847340407732641int);
        lemma_power5(483, 233289, 54423757521int, 26286674882643int);
        lemma_power5(485, 235225, 55330800625int, 26835438303125int);
    }
    if b == 250 {
        assert(LINEAR_BYTES@[250] == 244);
        lemma_power12(10561, 111534721, 12439993988547841int, 154753450435106421637059945761281int, 1925131993119760154345037980402010280924433944321int);
        lemma_power5(487, 237169, 56249134561int, 27393328531207int);
        lemma_power5(489, 239121, 57178852641int, 27960458941449int);
    }
    if b == 251 {
        assert(LINEAR_BYTES@[251] == 246);
        lemma_power12(10601, 112381201, 12629534338202401int, 159505137599833559003132042164801int, 2014475612436796835870149088244211012902935887201int);
        lemma_power5(491, 241081, 58120048561int, 28536943843451int);
        lemma_power5(493, 243049, 59072816401int, 29122898485693int);
    }
    if b == 252 {
        assert(LINEAR_BYTES@[252] == 248);
        lemma_power12(10641, 113230881, 12821232412036161int, 164384000563446594914501971617921int, 2107605476044232034993221839664296111051127641281int);
        lemma_power5(495, 245025, 60037250625int, 29718439059375int);
        lemma_power5(497, 247009, 61013446081int, 30323682702257int);
    }
    if b == 253 {
        assert(LINEAR_BYTES@[253] == 250);
        lemma_power12(10681, 114083761, 13015104523905121int, 169392945768175546371743810024641int, 2204666894784996375507515919956496949624556086561int);
        lemma_power5(499, 249001, 62001498001int, 30938747502499int);
        lemma_power5(501, 251001, 63001502001int, 31563752502501int);
    }
    if b == 254 {
        assert(LINEAR_BYTES@[254] == 253);
        lemma_power12(10721, 114939841, 13211167049105281int, 174534934799365138157182622088961int, 2305810179539111351812115600727427453482236903041int);
        lemma_power5(505, 255025, 65037750625int, 32844064065625int);
        lemma_power5(507, 257049, 66074188401int, 33499613519307int);
    }
    if b == 255 {
        assert(LINEAR_BYTES@[255] == 255);
        lemma_power5(509, 259081, 67122964561int, 34165588961549int);
        lemma_power5(511, 261121, 68184176641int, 34842114263551int);
    }
}

/// Every entry of the table is the nearest linear byte.
proof fn lemma_linear_bytes(b: int)
    requires
        0 <= b < 256,
    ensures
        is_linear_byte(b, LINEAR_BYTES@[b] as int),
{
    if b < 16 {
        lemma_linear_bytes_0(b);
    } else if b < 32 {
        lemma_linear_bytes_1(b);
    } else if b < 48 {
        lemma_linear_bytes_2(b);
    } else if b < 64 {
        lemma_linear_bytes_3(b);
    } else if b < 80 {
        lemma_linear_bytes_4(b);
    } else if b < 96 {
        lemma_linear_bytes_5(b);
    } else if b < 112 {
        lemma_linear_bytes_6(b);
    } else if b < 128 {
        lemma_linear_bytes_7(b);
    } else if b < 144 {
        lemma_linear_bytes_8(b);
    } else if b < 160 {
        lemma_linear_bytes_9(b);
    } else if b < 176 {
        lemma_linear_bytes_10(b);
    } else if b < 192 {
        lemma_linear_bytes_11(b);
    } else if b < 208 {
        lemma_linear_bytes_12(b);
    } else if b < 224 {
        lemma_linear_bytes_13(b);
    } else if b < 240 {
        lemma_linear_bytes_14(b);
    } else {
        lemma_linear_bytes_15(b);
    }
}

proof fn lemma_power5_grows(x: int, y: int)
    requires
        0 <= x <= y,
    ensures
        0 <= power5(x) <= power5(y),
{
    let x2 = times(x, x);
    let y2 = times(y, y);
    let x4 = times(x2, x2);
    let y4 = times(y2, y2);
    assert(0 <= x * x <= y * y) by (nonlinear_arith)
        requires
            0 <= x <= y,
    ;
    assert(0 <= x2 * x2 <= y2 * y2) by (nonlinear_arith)
        requires
            0 <= x2 <= y2,
    ;
    assert(0 <= x4 * x <= y4 * y) by (nonlinear_arith)
        requires
            0 <= x <= y,
            0 <= x4 <= y4,
    ;
}

/// There is only one nearest linear byte.
pub proof fn law_linear_byte_is_unique(b: u8, r: u8, s: u8)
    requires
        is_linear_byte(b as int, r as int),
        is_linear_byte(b as int, s as int),
    ensures
        r == s,
{
    if b > 10 {
        if r < s {
            lemma_linear_bytes_apart(b as int, r as int, s as int);
        } else if s < r {
            lemma_linear_bytes_apart(b as int, s as int, r as int);
        }
    }
}

proof fn lemma_linear_bytes_apart(b: int, r: int, s: int)
    requires
        b > 10,
        0 <= r < s,
    ensures
        !(is_linear_byte(b, r) && is_linear_byte(b, s)),
{
    lemma_scale();
    lemma_power5_grows(2 * r + 1, 2 * s - 1);
    let k = power12(10761);
    let low = power5(2 * r + 1);
    let high = power5(2 * s - 1);
    assert(low * k <= high * k) by (nonlinear_arith)
        requires
            low <= high,
            0 <= k,
    ;
}

proof fn lemma_power12_grows(x: int, y: int)
    requires
        0 <= x <= y,
    ensures
        0 <= power12(x) <= power12(y),
{
    let x2 = times(x, x);
    let y2 = times(y, y);
    let x4 = times(x2, x2);
    let y4 = times(y2, y2);
    let x8 = times(x4, x4);
    let y8 = times(y4, y4);
    assert(0 <= x * x <= y * y) by (nonlinear_arith)
        requires
            0 <= x <= y,
    ;
    assert(0 <= x2 * x2 <= y2 * y2) by (nonlinear_arith)
        requires
            0 <= x2 <= y2,
    ;
    assert(0 <= x4 * x4 <= y4 * y4) by (nonlinear_arith)
        requires
            0 <= x4 <= y4,
    ;
    assert(0 <= x8 * x4 <= y8 * y4) by (nonlinear_arith)
        requires
            0 <= x4 <= y4,
            0 <= x8 <= y8,
    ;
}

/// Both sides of a comparison above the line near black.
proof fn lemma_curve_grows(a: int, b: int)
    requires
        0 <= a <= b,
    ensures
        times(power12(40 * a + 561), power5(510)) <= times(power12(40 * b + 561), power5(510)),
{
    lemma_scale();
    lemma_power12_grows(40 * a + 561, 40 * b + 561);
    let low = power12(40 * a + 561);
    let high = power12(40 * b + 561);
    let k = power5(510);
    assert(low * k <= high * k) by (nonlinear_arith)
        requires
            low <= high,
            0 <= k,
    ;
}

/// Brighter bytes stay brighter or become the same.
pub proof fn law_conversion_keeps_the_order(a: u8, b: u8, r: u8, s: u8)
    requires
        a <= b,
        is_linear_byte(a as int, r as int),
        is_linear_byte(b as int, s as int),
    ensures
        r <= s,
{
    if b > 10 && r > s {
        lemma_scale();
        let k = power12(10761);
        if a > 10 {
            lemma_curve_grows(a as int, b as int);
            lemma_power5_grows(2 * s + 1, 2 * r - 1);
            let low = power5(2 * s + 1);
            let high = power5(2 * r - 1);
            assert(low * k <= high * k) by (nonlinear_arith)
                requires
                    low <= high,
                    0 <= k,
            ;
        } else {
            lemma_curve_grows(11, b as int);
            lemma_linear_bytes(11);
            assert(LINEAR_BYTES@[11] == 1);
        }
    }
}

/// The conversion never makes a byte brighter, and keeps black and white.
pub proof fn law_conversion_never_brightens(b: u8, r: u8)
    requires
        is_linear_byte(b as int, r as int),
    ensures
        r <= b,
        b == 0 ==> r == 0,
        b == 255 ==> r == 255,
{
    if b > 10 {
        // Each run of bytes ends with one whose linear byte is not above the
        // run's first.
        let last: u8 = if b <= 31 {
            31
        } else if b <= 63 {
            63
        } else if b <= 127 {
            127
        } else if b <= 175 {
            175
        } else if b <= 207 {
            207
        } else if b <= 231 {
            231
        } else if b <= 243 {
            243
        } else if b <= 249 {
            249
        } else if b <= 252 {
            252
        } else if b <= 254 {
            254
        } else {
            255
        };
        lemma_linear_bytes(last as int);
        assert(LINEAR_BYTES@[31] == 3);
        assert(LINEAR_BYTES@[63] == 13);
        assert(LINEAR_BYTES@[127] == 54);
        assert(LINEAR_BYTES@[175] == 109);
        assert(LINEAR_BYTES@[207] == 159);
        assert(LINEAR_BYTES@[231] == 204);
        assert(LINEAR_BYTES@[243] == 229);
        assert(LINEAR_BYTES@[249] == 242);
        assert(LINEAR_BYTES@[252] == 248);
        assert(LINEAR_BYTES@[254] == 253);
        assert(LINEAR_BYTES@[255] == 255);
        law_conversion_keeps_the_order(b, last, r, LINEAR_BYTES@[last as int]);
        if b == 255 {
            law_linear_byte_is_unique(b, r, LINEAR_BYTES@[255]);
        }
    }
}

/// Converts one sRGB byte to linear space for upload.
pub fn srgb_to_linear(byte: u8) -> (linear: u8)
    ensures
        is_linear_byte(byte as int, linear as int),
{
    proof {
        lemma_linear_bytes(byte as int);
    }
    LINEAR_BYTES[byte as usize]
}

/// Converts the color channels of RGBA pixels to linear space and keeps their alpha.
pub fn linearize_pixels(pixels: &Vec<u8>) -> (linear: Vec<u8>)
    requires
        pixels@.len() % 4 == 0,
    ensures
        linear@.len() == pixels@.len(),
        forall|i: int|
            0 <= i < linear@.len() ==> if i % 4 == 3 {
                #[trigger] linear@[i] == pixels@[i]
            } else {
                is_linear_byte(pixels@[i] as int, linear@[i] as int)
            },
{
    let mut linear: Vec<u8> = Vec::new();
    let mut i: usize = 0;
    while i < pixels.len()
        invariant
            i <= pixels@.len(),
            linear@.len() == i,
            forall|k: int|
                0 <= k < i ==> if k % 4 == 3 {
                    #[trigger] linear@[k] == pixels@[k]
                } else {
                    is_linear_byte(pixels@[k] as int, linear@[k] as int)
                },
        decreases pixels@.len() - i,
    {
        if i % 4 == 3 {
            linear.push(pixels[i]);
        } else {
            linear.push(srgb_to_linear(pixels[i]));
        }
        i = i + 1;
    }
    linear
}

} // verus!
