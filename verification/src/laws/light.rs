//! Light: the tones follow the sRGB curve, drawn up for the spread of the dots.

use crate::dither::SRGB_TO_LINEAR;
use vstd::prelude::*;

verus! {

/// The fifth power.
#[verifier::inline]
pub open spec fn fifth(x: int) -> int {
    x * x * x * x * x
}

/// The twelfth power.
#[verifier::inline]
pub open spec fn twelfth(x: int) -> int {
    (x * x * x) * (x * x * x) * (x * x * x) * (x * x * x)
}

/// `v` is `255` times the fifth root of the light of grey `g`, to the nearest
/// whole number. With `s` for `g / 255`, that light is `s / 12.92` in the dark
/// and `((s + 0.055) / 1.055)^2.4` elsewhere.
#[verifier::opaque]
pub open spec fn is_tone_of(g: int, v: int) -> bool {
    if g <= 10 {
        is_dark_tone(g, v)
    } else {
        is_bright_tone(g, v)
    }
}

#[verifier::inline]
pub open spec fn is_dark_tone(g: int, v: int) -> bool {
    fifth(2 * v - 1) * 32946 <= fifth(510) * 10 * g < fifth(2 * v + 1) * 32946
}

#[verifier::inline]
pub open spec fn is_bright_tone(g: int, v: int) -> bool {
    fifth(fifth(2 * v - 1)) * twelfth(269025) <= fifth(fifth(510)) * twelfth(1000 * g + 14025)
        < fifth(fifth(2 * v + 1)) * twelfth(269025)
}

proof fn lemma_tones_0()
    by (nonlinear_arith)
    ensures
        is_tone_of(0, 0),
        is_tone_of(1, 50),
        is_tone_of(2, 58),
        is_tone_of(3, 63),
        is_tone_of(4, 67),
        is_tone_of(5, 70),
        is_tone_of(6, 72),
        is_tone_of(7, 74),
        is_tone_of(8, 76),
        is_tone_of(9, 78),
        is_tone_of(10, 80),
{
    reveal(is_tone_of);
}

proof fn lemma_tones_11()
    by (nonlinear_arith)
    ensures
        is_tone_of(11, 82),
        is_tone_of(12, 83),
        is_tone_of(13, 85),
        is_tone_of(14, 86),
        is_tone_of(15, 88),
        is_tone_of(16, 89),
        is_tone_of(17, 90),
        is_tone_of(18, 92),
        is_tone_of(19, 93),
        is_tone_of(20, 95),
        is_tone_of(21, 96),
        is_tone_of(22, 97),
        is_tone_of(23, 98),
        is_tone_of(24, 100),
        is_tone_of(25, 101),
        is_tone_of(26, 102),
        is_tone_of(27, 103),
        is_tone_of(28, 105),
        is_tone_of(29, 106),
        is_tone_of(30, 107),
        is_tone_of(31, 108),
        is_tone_of(32, 109),
        is_tone_of(33, 110),
        is_tone_of(34, 112),
        is_tone_of(35, 113),
        is_tone_of(36, 114),
        is_tone_of(37, 115),
        is_tone_of(38, 116),
        is_tone_of(39, 117),
        is_tone_of(40, 118),
        is_tone_of(41, 119),
        is_tone_of(42, 120),
        is_tone_of(43, 121),
        is_tone_of(44, 122),
        is_tone_of(45, 123),
        is_tone_of(46, 124),
        is_tone_of(47, 125),
        is_tone_of(48, 126),
        is_tone_of(49, 127),
        is_tone_of(50, 128),
        is_tone_of(51, 129),
        is_tone_of(52, 130),
        is_tone_of(53, 131),
        is_tone_of(54, 132),
        is_tone_of(55, 133),
        is_tone_of(56, 134),
        is_tone_of(57, 135),
        is_tone_of(58, 135),
        is_tone_of(59, 136),
        is_tone_of(60, 137),
        is_tone_of(61, 138),
        is_tone_of(62, 139),
        is_tone_of(63, 140),
{
    reveal(is_tone_of);
}

proof fn lemma_tones_64()
    by (nonlinear_arith)
    ensures
        is_tone_of(64, 141),
        is_tone_of(65, 142),
        is_tone_of(66, 142),
        is_tone_of(67, 143),
        is_tone_of(68, 144),
        is_tone_of(69, 145),
        is_tone_of(70, 146),
        is_tone_of(71, 147),
        is_tone_of(72, 148),
        is_tone_of(73, 148),
        is_tone_of(74, 149),
        is_tone_of(75, 150),
        is_tone_of(76, 151),
        is_tone_of(77, 152),
        is_tone_of(78, 152),
        is_tone_of(79, 153),
        is_tone_of(80, 154),
        is_tone_of(81, 155),
        is_tone_of(82, 156),
        is_tone_of(83, 156),
        is_tone_of(84, 157),
        is_tone_of(85, 158),
        is_tone_of(86, 159),
        is_tone_of(87, 159),
        is_tone_of(88, 160),
        is_tone_of(89, 161),
        is_tone_of(90, 162),
        is_tone_of(91, 162),
        is_tone_of(92, 163),
        is_tone_of(93, 164),
        is_tone_of(94, 165),
        is_tone_of(95, 165),
        is_tone_of(96, 166),
        is_tone_of(97, 167),
        is_tone_of(98, 167),
        is_tone_of(99, 168),
        is_tone_of(100, 169),
        is_tone_of(101, 170),
        is_tone_of(102, 170),
        is_tone_of(103, 171),
        is_tone_of(104, 172),
        is_tone_of(105, 172),
        is_tone_of(106, 173),
        is_tone_of(107, 174),
        is_tone_of(108, 174),
        is_tone_of(109, 175),
        is_tone_of(110, 176),
        is_tone_of(111, 177),
        is_tone_of(112, 177),
        is_tone_of(113, 178),
        is_tone_of(114, 179),
        is_tone_of(115, 179),
        is_tone_of(116, 180),
        is_tone_of(117, 181),
        is_tone_of(118, 181),
        is_tone_of(119, 182),
        is_tone_of(120, 183),
        is_tone_of(121, 183),
        is_tone_of(122, 184),
        is_tone_of(123, 184),
        is_tone_of(124, 185),
        is_tone_of(125, 186),
        is_tone_of(126, 186),
        is_tone_of(127, 187),
{
    reveal(is_tone_of);
}

proof fn lemma_tones_128()
    by (nonlinear_arith)
    ensures
        is_tone_of(128, 188),
        is_tone_of(129, 188),
        is_tone_of(130, 189),
        is_tone_of(131, 190),
        is_tone_of(132, 190),
        is_tone_of(133, 191),
        is_tone_of(134, 191),
        is_tone_of(135, 192),
        is_tone_of(136, 193),
        is_tone_of(137, 193),
        is_tone_of(138, 194),
        is_tone_of(139, 195),
        is_tone_of(140, 195),
        is_tone_of(141, 196),
        is_tone_of(142, 196),
        is_tone_of(143, 197),
        is_tone_of(144, 198),
        is_tone_of(145, 198),
        is_tone_of(146, 199),
        is_tone_of(147, 199),
        is_tone_of(148, 200),
        is_tone_of(149, 201),
        is_tone_of(150, 201),
        is_tone_of(151, 202),
        is_tone_of(152, 202),
        is_tone_of(153, 203),
        is_tone_of(154, 203),
        is_tone_of(155, 204),
        is_tone_of(156, 205),
        is_tone_of(157, 205),
        is_tone_of(158, 206),
        is_tone_of(159, 206),
        is_tone_of(160, 207),
        is_tone_of(161, 207),
        is_tone_of(162, 208),
        is_tone_of(163, 209),
        is_tone_of(164, 209),
        is_tone_of(165, 210),
        is_tone_of(166, 210),
        is_tone_of(167, 211),
        is_tone_of(168, 211),
        is_tone_of(169, 212),
        is_tone_of(170, 213),
        is_tone_of(171, 213),
        is_tone_of(172, 214),
        is_tone_of(173, 214),
        is_tone_of(174, 215),
        is_tone_of(175, 215),
        is_tone_of(176, 216),
        is_tone_of(177, 216),
        is_tone_of(178, 217),
        is_tone_of(179, 217),
        is_tone_of(180, 218),
        is_tone_of(181, 219),
        is_tone_of(182, 219),
        is_tone_of(183, 220),
        is_tone_of(184, 220),
        is_tone_of(185, 221),
        is_tone_of(186, 221),
        is_tone_of(187, 222),
        is_tone_of(188, 222),
        is_tone_of(189, 223),
        is_tone_of(190, 223),
        is_tone_of(191, 224),
{
    reveal(is_tone_of);
}

proof fn lemma_tones_192()
    by (nonlinear_arith)
    ensures
        is_tone_of(192, 224),
        is_tone_of(193, 225),
        is_tone_of(194, 225),
        is_tone_of(195, 226),
        is_tone_of(196, 226),
        is_tone_of(197, 227),
        is_tone_of(198, 227),
        is_tone_of(199, 228),
        is_tone_of(200, 228),
        is_tone_of(201, 229),
        is_tone_of(202, 230),
        is_tone_of(203, 230),
        is_tone_of(204, 231),
        is_tone_of(205, 231),
        is_tone_of(206, 232),
        is_tone_of(207, 232),
        is_tone_of(208, 233),
        is_tone_of(209, 233),
        is_tone_of(210, 234),
        is_tone_of(211, 234),
        is_tone_of(212, 235),
        is_tone_of(213, 235),
        is_tone_of(214, 236),
        is_tone_of(215, 236),
        is_tone_of(216, 237),
        is_tone_of(217, 237),
        is_tone_of(218, 238),
        is_tone_of(219, 238),
        is_tone_of(220, 238),
        is_tone_of(221, 239),
        is_tone_of(222, 239),
        is_tone_of(223, 240),
        is_tone_of(224, 240),
        is_tone_of(225, 241),
        is_tone_of(226, 241),
        is_tone_of(227, 242),
        is_tone_of(228, 242),
        is_tone_of(229, 243),
        is_tone_of(230, 243),
        is_tone_of(231, 244),
        is_tone_of(232, 244),
        is_tone_of(233, 245),
        is_tone_of(234, 245),
        is_tone_of(235, 246),
        is_tone_of(236, 246),
        is_tone_of(237, 247),
        is_tone_of(238, 247),
        is_tone_of(239, 248),
        is_tone_of(240, 248),
        is_tone_of(241, 249),
        is_tone_of(242, 249),
        is_tone_of(243, 249),
        is_tone_of(244, 250),
        is_tone_of(245, 250),
        is_tone_of(246, 251),
        is_tone_of(247, 251),
        is_tone_of(248, 252),
        is_tone_of(249, 252),
        is_tone_of(250, 253),
        is_tone_of(251, 253),
        is_tone_of(252, 254),
        is_tone_of(253, 254),
        is_tone_of(254, 255),
        is_tone_of(255, 255),
{
    reveal(is_tone_of);
}

/// Every tone of the table is the fifth root of the light of its grey, on the
/// scale of the greys and to the nearest whole number: no grey is taken for
/// another.
#[verifier::spinoff_prover]
#[verifier::rlimit(50)]
pub proof fn tones_are_the_fifth_root_of_light(g: u8)
    ensures
        is_tone_of(g as int, SRGB_TO_LINEAR@[g as int] as int),
{
    lemma_tones_0();
    lemma_tones_11();
    lemma_tones_64();
    lemma_tones_128();
    lemma_tones_192();
    assert(g == 0 || g == 1 || g == 2 || g == 3 || g == 4 || g == 5 || g == 6
        || g == 7 || g == 8 || g == 9 || g == 10 || g == 11 || g == 12 || g == 13
        || g == 14 || g == 15 || g == 16 || g == 17 || g == 18 || g == 19 || g == 20
        || g == 21 || g == 22 || g == 23 || g == 24 || g == 25 || g == 26 || g == 27
        || g == 28 || g == 29 || g == 30 || g == 31 || g == 32 || g == 33 || g == 34
        || g == 35 || g == 36 || g == 37 || g == 38 || g == 39 || g == 40 || g == 41
        || g == 42 || g == 43 || g == 44 || g == 45 || g == 46 || g == 47 || g == 48
        || g == 49 || g == 50 || g == 51 || g == 52 || g == 53 || g == 54 || g == 55
        || g == 56 || g == 57 || g == 58 || g == 59 || g == 60 || g == 61 || g == 62
        || g == 63 || g == 64 || g == 65 || g == 66 || g == 67 || g == 68 || g == 69
        || g == 70 || g == 71 || g == 72 || g == 73 || g == 74 || g == 75 || g == 76
        || g == 77 || g == 78 || g == 79 || g == 80 || g == 81 || g == 82 || g == 83
        || g == 84 || g == 85 || g == 86 || g == 87 || g == 88 || g == 89 || g == 90
        || g == 91 || g == 92 || g == 93 || g == 94 || g == 95 || g == 96 || g == 97
        || g == 98 || g == 99 || g == 100 || g == 101 || g == 102 || g == 103 || g == 104
        || g == 105 || g == 106 || g == 107 || g == 108 || g == 109 || g == 110 || g == 111
        || g == 112 || g == 113 || g == 114 || g == 115 || g == 116 || g == 117 || g == 118
        || g == 119 || g == 120 || g == 121 || g == 122 || g == 123 || g == 124 || g == 125
        || g == 126 || g == 127 || g == 128 || g == 129 || g == 130 || g == 131 || g == 132
        || g == 133 || g == 134 || g == 135 || g == 136 || g == 137 || g == 138 || g == 139
        || g == 140 || g == 141 || g == 142 || g == 143 || g == 144 || g == 145 || g == 146
        || g == 147 || g == 148 || g == 149 || g == 150 || g == 151 || g == 152 || g == 153
        || g == 154 || g == 155 || g == 156 || g == 157 || g == 158 || g == 159 || g == 160
        || g == 161 || g == 162 || g == 163 || g == 164 || g == 165 || g == 166 || g == 167
        || g == 168 || g == 169 || g == 170 || g == 171 || g == 172 || g == 173 || g == 174
        || g == 175 || g == 176 || g == 177 || g == 178 || g == 179 || g == 180 || g == 181
        || g == 182 || g == 183 || g == 184 || g == 185 || g == 186 || g == 187 || g == 188
        || g == 189 || g == 190 || g == 191 || g == 192 || g == 193 || g == 194 || g == 195
        || g == 196 || g == 197 || g == 198 || g == 199 || g == 200 || g == 201 || g == 202
        || g == 203 || g == 204 || g == 205 || g == 206 || g == 207 || g == 208 || g == 209
        || g == 210 || g == 211 || g == 212 || g == 213 || g == 214 || g == 215 || g == 216
        || g == 217 || g == 218 || g == 219 || g == 220 || g == 221 || g == 222 || g == 223
        || g == 224 || g == 225 || g == 226 || g == 227 || g == 228 || g == 229 || g == 230
        || g == 231 || g == 232 || g == 233 || g == 234 || g == 235 || g == 236 || g == 237
        || g == 238 || g == 239 || g == 240 || g == 241 || g == 242 || g == 243 || g == 244
        || g == 245 || g == 246 || g == 247 || g == 248 || g == 249 || g == 250 || g == 251
        || g == 252 || g == 253 || g == 254 || g == 255);
}

} // verus!
