//! The code points that are never shown as they are.
use vstd::prelude::*;

verus! {

/// The number of ranges in [`UNPRINTABLE`].
pub const UNPRINTABLE_LEN: usize = 700;

/// The code points above ASCII that are escaped, as inclusive ranges in
/// ascending order: those of the Unicode general categories "Other"
/// (control, format, surrogate, private use, unassigned) and "Separator"
/// (space, line, paragraph), as of Unicode 14.0.
pub const UNPRINTABLE: [(u32, u32); UNPRINTABLE_LEN] = [
    (0x80, 0xA0), (0xAD, 0xAD), (0x378, 0x379), (0x380, 0x383),
    (0x38B, 0x38B), (0x38D, 0x38D), (0x3A2, 0x3A2), (0x530, 0x530),
    (0x557, 0x558), (0x58B, 0x58C), (0x590, 0x590), (0x5C8, 0x5CF),
    (0x5EB, 0x5EE), (0x5F5, 0x605), (0x61C, 0x61C), (0x6DD, 0x6DD),
    (0x70E, 0x70F), (0x74B, 0x74C), (0x7B2, 0x7BF), (0x7FB, 0x7FC),
    (0x82E, 0x82F), (0x83F, 0x83F), (0x85C, 0x85D), (0x85F, 0x85F),
    (0x86B, 0x86F), (0x88F, 0x897), (0x8E2, 0x8E2), (0x984, 0x984),
    (0x98D, 0x98E), (0x991, 0x992), (0x9A9, 0x9A9), (0x9B1, 0x9B1),
    (0x9B3, 0x9B5), (0x9BA, 0x9BB), (0x9C5, 0x9C6), (0x9C9, 0x9CA),
    (0x9CF, 0x9D6), (0x9D8, 0x9DB), (0x9DE, 0x9DE), (0x9E4, 0x9E5),
    (0x9FF, 0xA00), (0xA04, 0xA04), (0xA0B, 0xA0E), (0xA11, 0xA12),
    (0xA29, 0xA29), (0xA31, 0xA31), (0xA34, 0xA34), (0xA37, 0xA37),
    (0xA3A, 0xA3B), (0xA3D, 0xA3D), (0xA43, 0xA46), (0xA49, 0xA4A),
    (0xA4E, 0xA50), (0xA52, 0xA58), (0xA5D, 0xA5D), (0xA5F, 0xA65),
    (0xA77, 0xA80), (0xA84, 0xA84), (0xA8E, 0xA8E), (0xA92, 0xA92),
    (0xAA9, 0xAA9), (0xAB1, 0xAB1), (0xAB4, 0xAB4), (0xABA, 0xABB),
    (0xAC6, 0xAC6), (0xACA, 0xACA), (0xACE, 0xACF), (0xAD1, 0xADF),
    (0xAE4, 0xAE5), (0xAF2, 0xAF8), (0xB00, 0xB00), (0xB04, 0xB04),
    (0xB0D, 0xB0E), (0xB11, 0xB12), (0xB29, 0xB29), (0xB31, 0xB31),
    (0xB34, 0xB34), (0xB3A, 0xB3B), (0xB45, 0xB46), (0xB49, 0xB4A),
    (0xB4E, 0xB54), (0xB58, 0xB5B), (0xB5E, 0xB5E), (0xB64, 0xB65),
    (0xB78, 0xB81), (0xB84, 0xB84), (0xB8B, 0xB8D), (0xB91, 0xB91),
    (0xB96, 0xB98), (0xB9B, 0xB9B), (0xB9D, 0xB9D), (0xBA0, 0xBA2),
    (0xBA5, 0xBA7), (0xBAB, 0xBAD), (0xBBA, 0xBBD), (0xBC3, 0xBC5),
    (0xBC9, 0xBC9), (0xBCE, 0xBCF), (0xBD1, 0xBD6), (0xBD8, 0xBE5),
    (0xBFB, 0xBFF), (0xC0D, 0xC0D), (0xC11, 0xC11), (0xC29, 0xC29),
    (0xC3A, 0xC3B), (0xC45, 0xC45), (0xC49, 0xC49), (0xC4E, 0xC54),
    (0xC57, 0xC57), (0xC5B, 0xC5C), (0xC5E, 0xC5F), (0xC64, 0xC65),
    (0xC70, 0xC76), (0xC8D, 0xC8D), (0xC91, 0xC91), (0xCA9, 0xCA9),
    (0xCB4, 0xCB4), (0xCBA, 0xCBB), (0xCC5, 0xCC5), (0xCC9, 0xCC9),
    (0xCCE, 0xCD4), (0xCD7, 0xCDC), (0xCDF, 0xCDF), (0xCE4, 0xCE5),
    (0xCF0, 0xCF0), (0xCF3, 0xCFF), (0xD0D, 0xD0D), (0xD11, 0xD11),
    (0xD45, 0xD45), (0xD49, 0xD49), (0xD50, 0xD53), (0xD64, 0xD65),
    (0xD80, 0xD80), (0xD84, 0xD84), (0xD97, 0xD99), (0xDB2, 0xDB2),
    (0xDBC, 0xDBC), (0xDBE, 0xDBF), (0xDC7, 0xDC9), (0xDCB, 0xDCE),
    (0xDD5, 0xDD5), (0xDD7, 0xDD7), (0xDE0, 0xDE5), (0xDF0, 0xDF1),
    (0xDF5, 0xE00), (0xE3B, 0xE3E), (0xE5C, 0xE80), (0xE83, 0xE83),
    (0xE85, 0xE85), (0xE8B, 0xE8B), (0xEA4, 0xEA4), (0xEA6, 0xEA6),
    (0xEBE, 0xEBF), (0xEC5, 0xEC5), (0xEC7, 0xEC7), (0xECE, 0xECF),
    (0xEDA, 0xEDB), (0xEE0, 0xEFF), (0xF48, 0xF48), (0xF6D, 0xF70),
    (0xF98, 0xF98), (0xFBD, 0xFBD), (0xFCD, 0xFCD), (0xFDB, 0xFFF),
    (0x10C6, 0x10C6), (0x10C8, 0x10CC), (0x10CE, 0x10CF), (0x1249, 0x1249),
    (0x124E, 0x124F), (0x1257, 0x1257), (0x1259, 0x1259), (0x125E, 0x125F),
    (0x1289, 0x1289), (0x128E, 0x128F), (0x12B1, 0x12B1), (0x12B6, 0x12B7),
    (0x12BF, 0x12BF), (0x12C1, 0x12C1), (0x12C6, 0x12C7), (0x12D7, 0x12D7),
    (0x1311, 0x1311), (0x1316, 0x1317), (0x135B, 0x135C), (0x137D, 0x137F),
    (0x139A, 0x139F), (0x13F6, 0x13F7), (0x13FE, 0x13FF), (0x1680, 0x1680),
    (0x169D, 0x169F), (0x16F9, 0x16FF), (0x1716, 0x171E), (0x1737, 0x173F),
    (0x1754, 0x175F), (0x176D, 0x176D), (0x1771, 0x1771), (0x1774, 0x177F),
    (0x17DE, 0x17DF), (0x17EA, 0x17EF), (0x17FA, 0x17FF), (0x180E, 0x180E),
    (0x181A, 0x181F), (0x1879, 0x187F), (0x18AB, 0x18AF), (0x18F6, 0x18FF),
    (0x191F, 0x191F), (0x192C, 0x192F), (0x193C, 0x193F), (0x1941, 0x1943),
    (0x196E, 0x196F), (0x1975, 0x197F), (0x19AC, 0x19AF), (0x19CA, 0x19CF),
    (0x19DB, 0x19DD), (0x1A1C, 0x1A1D), (0x1A5F, 0x1A5F), (0x1A7D, 0x1A7E),
    (0x1A8A, 0x1A8F), (0x1A9A, 0x1A9F), (0x1AAE, 0x1AAF), (0x1ACF, 0x1AFF),
    (0x1B4D, 0x1B4F), (0x1B7F, 0x1B7F), (0x1BF4, 0x1BFB), (0x1C38, 0x1C3A),
    (0x1C4A, 0x1C4C), (0x1C89, 0x1C8F), (0x1CBB, 0x1CBC), (0x1CC8, 0x1CCF),
    (0x1CFB, 0x1CFF), (0x1F16, 0x1F17), (0x1F1E, 0x1F1F), (0x1F46, 0x1F47),
    (0x1F4E, 0x1F4F), (0x1F58, 0x1F58), (0x1F5A, 0x1F5A), (0x1F5C, 0x1F5C),
    (0x1F5E, 0x1F5E), (0x1F7E, 0x1F7F), (0x1FB5, 0x1FB5), (0x1FC5, 0x1FC5),
    (0x1FD4, 0x1FD5), (0x1FDC, 0x1FDC), (0x1FF0, 0x1FF1), (0x1FF5, 0x1FF5),
    (0x1FFF, 0x200F), (0x2028, 0x202F), (0x205F, 0x206F), (0x2072, 0x2073),
    (0x208F, 0x208F), (0x209D, 0x209F), (0x20C1, 0x20CF), (0x20F1, 0x20FF),
    (0x218C, 0x218F), (0x2427, 0x243F), (0x244B, 0x245F), (0x2B74, 0x2B75),
    (0x2B96, 0x2B96), (0x2CF4, 0x2CF8), (0x2D26, 0x2D26), (0x2D28, 0x2D2C),
    (0x2D2E, 0x2D2F), (0x2D68, 0x2D6E), (0x2D71, 0x2D7E), (0x2D97, 0x2D9F),
    (0x2DA7, 0x2DA7), (0x2DAF, 0x2DAF), (0x2DB7, 0x2DB7), (0x2DBF, 0x2DBF),
    (0x2DC7, 0x2DC7), (0x2DCF, 0x2DCF), (0x2DD7, 0x2DD7), (0x2DDF, 0x2DDF),
    (0x2E5E, 0x2E7F), (0x2E9A, 0x2E9A), (0x2EF4, 0x2EFF), (0x2FD6, 0x2FEF),
    (0x2FFC, 0x3000), (0x3040, 0x3040), (0x3097, 0x3098), (0x3100, 0x3104),
    (0x3130, 0x3130), (0x318F, 0x318F), (0x31E4, 0x31EF), (0x321F, 0x321F),
    (0xA48D, 0xA48F), (0xA4C7, 0xA4CF), (0xA62C, 0xA63F), (0xA6F8, 0xA6FF),
    (0xA7CB, 0xA7CF), (0xA7D2, 0xA7D2), (0xA7D4, 0xA7D4), (0xA7DA, 0xA7F1),
    (0xA82D, 0xA82F), (0xA83A, 0xA83F), (0xA878, 0xA87F), (0xA8C6, 0xA8CD),
    (0xA8DA, 0xA8DF), (0xA954, 0xA95E), (0xA97D, 0xA97F), (0xA9CE, 0xA9CE),
    (0xA9DA, 0xA9DD), (0xA9FF, 0xA9FF), (0xAA37, 0xAA3F), (0xAA4E, 0xAA4F),
    (0xAA5A, 0xAA5B), (0xAAC3, 0xAADA), (0xAAF7, 0xAB00), (0xAB07, 0xAB08),
    (0xAB0F, 0xAB10), (0xAB17, 0xAB1F), (0xAB27, 0xAB27), (0xAB2F, 0xAB2F),
    (0xAB6C, 0xAB6F), (0xABEE, 0xABEF), (0xABFA, 0xABFF), (0xD7A4, 0xD7AF),
    (0xD7C7, 0xD7CA), (0xD7FC, 0xF8FF), (0xFA6E, 0xFA6F), (0xFADA, 0xFAFF),
    (0xFB07, 0xFB12), (0xFB18, 0xFB1C), (0xFB37, 0xFB37), (0xFB3D, 0xFB3D),
    (0xFB3F, 0xFB3F), (0xFB42, 0xFB42), (0xFB45, 0xFB45), (0xFBC3, 0xFBD2),
    (0xFD90, 0xFD91), (0xFDC8, 0xFDCE), (0xFDD0, 0xFDEF), (0xFE1A, 0xFE1F),
    (0xFE53, 0xFE53), (0xFE67, 0xFE67), (0xFE6C, 0xFE6F), (0xFE75, 0xFE75),
    (0xFEFD, 0xFF00), (0xFFBF, 0xFFC1), (0xFFC8, 0xFFC9), (0xFFD0, 0xFFD1),
    (0xFFD8, 0xFFD9), (0xFFDD, 0xFFDF), (0xFFE7, 0xFFE7), (0xFFEF, 0xFFFB),
    (0xFFFE, 0xFFFF), (0x1000C, 0x1000C), (0x10027, 0x10027), (0x1003B, 0x1003B),
    (0x1003E, 0x1003E), (0x1004E, 0x1004F), (0x1005E, 0x1007F), (0x100FB, 0x100FF),
    (0x10103, 0x10106), (0x10134, 0x10136), (0x1018F, 0x1018F), (0x1019D, 0x1019F),
    (0x101A1, 0x101CF), (0x101FE, 0x1027F), (0x1029D, 0x1029F), (0x102D1, 0x102DF),
    (0x102FC, 0x102FF), (0x10324, 0x1032C), (0x1034B, 0x1034F), (0x1037B, 0x1037F),
    (0x1039E, 0x1039E), (0x103C4, 0x103C7), (0x103D6, 0x103FF), (0x1049E, 0x1049F),
    (0x104AA, 0x104AF), (0x104D4, 0x104D7), (0x104FC, 0x104FF), (0x10528, 0x1052F),
    (0x10564, 0x1056E), (0x1057B, 0x1057B), (0x1058B, 0x1058B), (0x10593, 0x10593),
    (0x10596, 0x10596), (0x105A2, 0x105A2), (0x105B2, 0x105B2), (0x105BA, 0x105BA),
    (0x105BD, 0x105FF), (0x10737, 0x1073F), (0x10756, 0x1075F), (0x10768, 0x1077F),
    (0x10786, 0x10786), (0x107B1, 0x107B1), (0x107BB, 0x107FF), (0x10806, 0x10807),
    (0x10809, 0x10809), (0x10836, 0x10836), (0x10839, 0x1083B), (0x1083D, 0x1083E),
    (0x10856, 0x10856), (0x1089F, 0x108A6), (0x108B0, 0x108DF), (0x108F3, 0x108F3),
    (0x108F6, 0x108FA), (0x1091C, 0x1091E), (0x1093A, 0x1093E), (0x10940, 0x1097F),
    (0x109B8, 0x109BB), (0x109D0, 0x109D1), (0x10A04, 0x10A04), (0x10A07, 0x10A0B),
    (0x10A14, 0x10A14), (0x10A18, 0x10A18), (0x10A36, 0x10A37), (0x10A3B, 0x10A3E),
    (0x10A49, 0x10A4F), (0x10A59, 0x10A5F), (0x10AA0, 0x10ABF), (0x10AE7, 0x10AEA),
    (0x10AF7, 0x10AFF), (0x10B36, 0x10B38), (0x10B56, 0x10B57), (0x10B73, 0x10B77),
    (0x10B92, 0x10B98), (0x10B9D, 0x10BA8), (0x10BB0, 0x10BFF), (0x10C49, 0x10C7F),
    (0x10CB3, 0x10CBF), (0x10CF3, 0x10CF9), (0x10D28, 0x10D2F), (0x10D3A, 0x10E5F),
    (0x10E7F, 0x10E7F), (0x10EAA, 0x10EAA), (0x10EAE, 0x10EAF), (0x10EB2, 0x10EFF),
    (0x10F28, 0x10F2F), (0x10F5A, 0x10F6F), (0x10F8A, 0x10FAF), (0x10FCC, 0x10FDF),
    (0x10FF7, 0x10FFF), (0x1104E, 0x11051), (0x11076, 0x1107E), (0x110BD, 0x110BD),
    (0x110C3, 0x110CF), (0x110E9, 0x110EF), (0x110FA, 0x110FF), (0x11135, 0x11135),
    (0x11148, 0x1114F), (0x11177, 0x1117F), (0x111E0, 0x111E0), (0x111F5, 0x111FF),
    (0x11212, 0x11212), (0x1123F, 0x1127F), (0x11287, 0x11287), (0x11289, 0x11289),
    (0x1128E, 0x1128E), (0x1129E, 0x1129E), (0x112AA, 0x112AF), (0x112EB, 0x112EF),
    (0x112FA, 0x112FF), (0x11304, 0x11304), (0x1130D, 0x1130E), (0x11311, 0x11312),
    (0x11329, 0x11329), (0x11331, 0x11331), (0x11334, 0x11334), (0x1133A, 0x1133A),
    (0x11345, 0x11346), (0x11349, 0x1134A), (0x1134E, 0x1134F), (0x11351, 0x11356),
    (0x11358, 0x1135C), (0x11364, 0x11365), (0x1136D, 0x1136F), (0x11375, 0x113FF),
    (0x1145C, 0x1145C), (0x11462, 0x1147F), (0x114C8, 0x114CF), (0x114DA, 0x1157F),
    (0x115B6, 0x115B7), (0x115DE, 0x115FF), (0x11645, 0x1164F), (0x1165A, 0x1165F),
    (0x1166D, 0x1167F), (0x116BA, 0x116BF), (0x116CA, 0x116FF), (0x1171B, 0x1171C),
    (0x1172C, 0x1172F), (0x11747, 0x117FF), (0x1183C, 0x1189F), (0x118F3, 0x118FE),
    (0x11907, 0x11908), (0x1190A, 0x1190B), (0x11914, 0x11914), (0x11917, 0x11917),
    (0x11936, 0x11936), (0x11939, 0x1193A), (0x11947, 0x1194F), (0x1195A, 0x1199F),
    (0x119A8, 0x119A9), (0x119D8, 0x119D9), (0x119E5, 0x119FF), (0x11A48, 0x11A4F),
    (0x11AA3, 0x11AAF), (0x11AF9, 0x11BFF), (0x11C09, 0x11C09), (0x11C37, 0x11C37),
    (0x11C46, 0x11C4F), (0x11C6D, 0x11C6F), (0x11C90, 0x11C91), (0x11CA8, 0x11CA8),
    (0x11CB7, 0x11CFF), (0x11D07, 0x11D07), (0x11D0A, 0x11D0A), (0x11D37, 0x11D39),
    (0x11D3B, 0x11D3B), (0x11D3E, 0x11D3E), (0x11D48, 0x11D4F), (0x11D5A, 0x11D5F),
    (0x11D66, 0x11D66), (0x11D69, 0x11D69), (0x11D8F, 0x11D8F), (0x11D92, 0x11D92),
    (0x11D99, 0x11D9F), (0x11DAA, 0x11EDF), (0x11EF9, 0x11FAF), (0x11FB1, 0x11FBF),
    (0x11FF2, 0x11FFE), (0x1239A, 0x123FF), (0x1246F, 0x1246F), (0x12475, 0x1247F),
    (0x12544, 0x12F8F), (0x12FF3, 0x12FFF), (0x1342F, 0x143FF), (0x14647, 0x167FF),
    (0x16A39, 0x16A3F), (0x16A5F, 0x16A5F), (0x16A6A, 0x16A6D), (0x16ABF, 0x16ABF),
    (0x16ACA, 0x16ACF), (0x16AEE, 0x16AEF), (0x16AF6, 0x16AFF), (0x16B46, 0x16B4F),
    (0x16B5A, 0x16B5A), (0x16B62, 0x16B62), (0x16B78, 0x16B7C), (0x16B90, 0x16E3F),
    (0x16E9B, 0x16EFF), (0x16F4B, 0x16F4E), (0x16F88, 0x16F8E), (0x16FA0, 0x16FDF),
    (0x16FE5, 0x16FEF), (0x16FF2, 0x16FFF), (0x187F8, 0x187FF), (0x18CD6, 0x18CFF),
    (0x18D09, 0x1AFEF), (0x1AFF4, 0x1AFF4), (0x1AFFC, 0x1AFFC), (0x1AFFF, 0x1AFFF),
    (0x1B123, 0x1B14F), (0x1B153, 0x1B163), (0x1B168, 0x1B16F), (0x1B2FC, 0x1BBFF),
    (0x1BC6B, 0x1BC6F), (0x1BC7D, 0x1BC7F), (0x1BC89, 0x1BC8F), (0x1BC9A, 0x1BC9B),
    (0x1BCA0, 0x1CEFF), (0x1CF2E, 0x1CF2F), (0x1CF47, 0x1CF4F), (0x1CFC4, 0x1CFFF),
    (0x1D0F6, 0x1D0FF), (0x1D127, 0x1D128), (0x1D173, 0x1D17A), (0x1D1EB, 0x1D1FF),
    (0x1D246, 0x1D2DF), (0x1D2F4, 0x1D2FF), (0x1D357, 0x1D35F), (0x1D379, 0x1D3FF),
    (0x1D455, 0x1D455), (0x1D49D, 0x1D49D), (0x1D4A0, 0x1D4A1), (0x1D4A3, 0x1D4A4),
    (0x1D4A7, 0x1D4A8), (0x1D4AD, 0x1D4AD), (0x1D4BA, 0x1D4BA), (0x1D4BC, 0x1D4BC),
    (0x1D4C4, 0x1D4C4), (0x1D506, 0x1D506), (0x1D50B, 0x1D50C), (0x1D515, 0x1D515),
    (0x1D51D, 0x1D51D), (0x1D53A, 0x1D53A), (0x1D53F, 0x1D53F), (0x1D545, 0x1D545),
    (0x1D547, 0x1D549), (0x1D551, 0x1D551), (0x1D6A6, 0x1D6A7), (0x1D7CC, 0x1D7CD),
    (0x1DA8C, 0x1DA9A), (0x1DAA0, 0x1DAA0), (0x1DAB0, 0x1DEFF), (0x1DF1F, 0x1DFFF),
    (0x1E007, 0x1E007), (0x1E019, 0x1E01A), (0x1E022, 0x1E022), (0x1E025, 0x1E025),
    (0x1E02B, 0x1E0FF), (0x1E12D, 0x1E12F), (0x1E13E, 0x1E13F), (0x1E14A, 0x1E14D),
    (0x1E150, 0x1E28F), (0x1E2AF, 0x1E2BF), (0x1E2FA, 0x1E2FE), (0x1E300, 0x1E7DF),
    (0x1E7E7, 0x1E7E7), (0x1E7EC, 0x1E7EC), (0x1E7EF, 0x1E7EF), (0x1E7FF, 0x1E7FF),
    (0x1E8C5, 0x1E8C6), (0x1E8D7, 0x1E8FF), (0x1E94C, 0x1E94F), (0x1E95A, 0x1E95D),
    (0x1E960, 0x1EC70), (0x1ECB5, 0x1ED00), (0x1ED3E, 0x1EDFF), (0x1EE04, 0x1EE04),
    (0x1EE20, 0x1EE20), (0x1EE23, 0x1EE23), (0x1EE25, 0x1EE26), (0x1EE28, 0x1EE28),
    (0x1EE33, 0x1EE33), (0x1EE38, 0x1EE38), (0x1EE3A, 0x1EE3A), (0x1EE3C, 0x1EE41),
    (0x1EE43, 0x1EE46), (0x1EE48, 0x1EE48), (0x1EE4A, 0x1EE4A), (0x1EE4C, 0x1EE4C),
    (0x1EE50, 0x1EE50), (0x1EE53, 0x1EE53), (0x1EE55, 0x1EE56), (0x1EE58, 0x1EE58),
    (0x1EE5A, 0x1EE5A), (0x1EE5C, 0x1EE5C), (0x1EE5E, 0x1EE5E), (0x1EE60, 0x1EE60),
    (0x1EE63, 0x1EE63), (0x1EE65, 0x1EE66), (0x1EE6B, 0x1EE6B), (0x1EE73, 0x1EE73),
    (0x1EE78, 0x1EE78), (0x1EE7D, 0x1EE7D), (0x1EE7F, 0x1EE7F), (0x1EE8A, 0x1EE8A),
    (0x1EE9C, 0x1EEA0), (0x1EEA4, 0x1EEA4), (0x1EEAA, 0x1EEAA), (0x1EEBC, 0x1EEEF),
    (0x1EEF2, 0x1EFFF), (0x1F02C, 0x1F02F), (0x1F094, 0x1F09F), (0x1F0AF, 0x1F0B0),
    (0x1F0C0, 0x1F0C0), (0x1F0D0, 0x1F0D0), (0x1F0F6, 0x1F0FF), (0x1F1AE, 0x1F1E5),
    (0x1F203, 0x1F20F), (0x1F23C, 0x1F23F), (0x1F249, 0x1F24F), (0x1F252, 0x1F25F),
    (0x1F266, 0x1F2FF), (0x1F6D8, 0x1F6DC), (0x1F6ED, 0x1F6EF), (0x1F6FD, 0x1F6FF),
    (0x1F774, 0x1F77F), (0x1F7D9, 0x1F7DF), (0x1F7EC, 0x1F7EF), (0x1F7F1, 0x1F7FF),
    (0x1F80C, 0x1F80F), (0x1F848, 0x1F84F), (0x1F85A, 0x1F85F), (0x1F888, 0x1F88F),
    (0x1F8AE, 0x1F8AF), (0x1F8B2, 0x1F8FF), (0x1FA54, 0x1FA5F), (0x1FA6E, 0x1FA6F),
    (0x1FA75, 0x1FA77), (0x1FA7D, 0x1FA7F), (0x1FA87, 0x1FA8F), (0x1FAAD, 0x1FAAF),
    (0x1FABB, 0x1FABF), (0x1FAC6, 0x1FACF), (0x1FADA, 0x1FADF), (0x1FAE8, 0x1FAEF),
    (0x1FAF7, 0x1FAFF), (0x1FB93, 0x1FB93), (0x1FBCB, 0x1FBEF), (0x1FBFA, 0x1FFFF),
    (0x2A6E0, 0x2A6FF), (0x2B739, 0x2B73F), (0x2B81E, 0x2B81F), (0x2CEA2, 0x2CEAF),
    (0x2EBE1, 0x2F7FF), (0x2FA1E, 0x2FFFF), (0x3134B, 0xE00FF), (0xE01F0, 0x10FFFF),
];

/// Whether range `i` of `table` ends before range `j` begins.
pub open spec fn ends_before(table: Seq<(u32, u32)>, i: int, j: int) -> bool {
    table[i].1 < table[j].0
}

/// No range is empty, and each range ends before every later one begins.
pub open spec fn ranges_ordered(table: Seq<(u32, u32)>) -> bool {
    &&& forall|i: int| 0 <= i < table.len() ==> (#[trigger] table[i]).0 <= table[i].1
    &&& forall|i: int, j: int| 0 <= i < j < table.len() ==> #[trigger] ends_before(table, i, j)
}

/// Whether one of the ranges holds `value`.
pub open spec fn in_ranges(table: Seq<(u32, u32)>, value: u32) -> bool {
    exists|i: int| 0 <= i < table.len() && (#[trigger] table[i]).0 <= value <= table[i].1
}

/// The ranges of [`UNPRINTABLE`]. A proof that is about given code points
/// reveals this function; any other is better off without the table.
#[verifier::opaque]
pub open spec fn unprintable_ranges() -> Seq<(u32, u32)> {
    UNPRINTABLE@
}

/// A table in which each range ends before its successor begins is ordered
/// throughout.
pub proof fn lemma_neighbours_ordered(table: Seq<(u32, u32)>, i: int, j: int)
    requires
        forall|k: int| 0 <= k < table.len() ==> (#[trigger] table[k]).0 <= table[k].1,
        forall|k: int| 0 <= k < table.len() - 1 ==> #[trigger] ends_before(table, k, k + 1),
        0 <= i < j < table.len(),
    ensures
        ends_before(table, i, j),
    decreases j - i,
{
    if i + 1 < j {
        lemma_neighbours_ordered(table, i, j - 1);
        assert(table[j - 1].0 <= table[j - 1].1);
        assert(ends_before(table, j - 1, j - 1 + 1));
    } else {
        assert(ends_before(table, i, i + 1));
    }
}

// The two lemmas below compare each of the ranges with itself or with its
// neighbour.
#[verifier::rlimit(100)]
proof fn lemma_unprintable_not_empty()
    ensures
        forall|k: int|
            0 <= k < unprintable_ranges().len() ==> (#[trigger] unprintable_ranges()[k]).0
                <= unprintable_ranges()[k].1,
{
    reveal(unprintable_ranges);
}

#[verifier::rlimit(100)]
proof fn lemma_unprintable_neighbours()
    ensures
        forall|k: int|
            0 <= k < unprintable_ranges().len() - 1 ==> #[trigger] ends_before(
                unprintable_ranges(),
                k,
                k + 1,
            ),
{
    reveal(unprintable_ranges);
}

/// The table of unprintable code points is ordered.
pub proof fn lemma_unprintable_ordered()
    ensures
        ranges_ordered(unprintable_ranges()),
{
    let table = unprintable_ranges();
    lemma_unprintable_not_empty();
    lemma_unprintable_neighbours();
    assert forall|i: int, j: int| 0 <= i < j < table.len() implies #[trigger] ends_before(
        table,
        i,
        j,
    ) by {
        lemma_neighbours_ordered(table, i, j);
    }
}

/// The table of unprintable code points.
pub fn unprintable() -> (table: &'static [(u32, u32)])
    ensures
        table@ == unprintable_ranges(),
        ranges_ordered(table@),
{
    proof {
        reveal(unprintable_ranges);
        lemma_unprintable_ordered();
    }
    &UNPRINTABLE
}

} // verus!
