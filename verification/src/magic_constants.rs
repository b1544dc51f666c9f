use vstd::prelude::*;

verus! {

/// For each square, the multiplier that spreads the blockers of a bishop over
/// the slots of its attack table.
pub const BISHOP_MAGICS: [u64; 64] = [
    0x8410544508092100, 0x8844080828408108, 0x0008020042141000, 0x81084841000A0400,
    0x000C104440890840, 0x4008480210801310, 0x00244804B0080000, 0x0012004108019010,
    0x0D91040852280A01, 0x2040044102021204, 0x8108304482004382, 0x8100209083040044,
    0x8014042420002100, 0x8210020804042242, 0x00203C0108021008, 0x0000018071101008,
    0x00048008D0B00200, 0x3120080288021490, 0x0004034204040808, 0x0608048082004020,
    0x0004022200A20048, 0x0809200F10101001, 0x00421004009208C0, 0x2011030200808400,
    0x00202042CA420421, 0x2202104020449080, 0x0022220804080A00, 0x0004080104021002,
    0x7000848044002000, 0x000800208A100420, 0x4008028000425800, 0x1024110801805118,
    0x000208B401403000, 0x000404E014020204, 0x4414812480100400, 0x0345020080080081,
    0x3410088200402200, 0x1042061200044800, 0x8808810404404A00, 0x8801022200002100,
    0x080104504000C600, 0x00204C22280020C0, 0x00A2021044080810, 0x8000002018010100,
    0x0001582008200102, 0x8090111008208100, 0x005E080809322084, 0x1188084080204088,
    0x000088080944341B, 0x0002046A08041000, 0x0A32802084102290, 0x0010200420880050,
    0x052240202041200A, 0x0A0021040102090C, 0x2008881004004000, 0x8210415804808524,
    0x0000410455202000, 0x0084005700901001, 0x0018000202422800, 0xA000150002050400,
    0x102010A828912400, 0x1064002020420080, 0x0C28204410421040, 0x0040820081020484,
];

/// For each square, the multiplier that spreads the blockers of a rook over
/// the slots of its attack table.
pub const ROOK_MAGICS: [u64; 64] = [
    0x0080041184614000, 0x0840004810002000, 0x0180191000802002, 0x1100041001002008,
    0x8200100402000820, 0x8200100401080200, 0x06000712002800A4, 0x008010218005C100,
    0x0008801040008020, 0x1120400020005000, 0x2101002000190040, 0x0010801002800800,
    0x0446003200040820, 0x0801000209000400, 0x82040011042A2830, 0x0001003342048500,
    0xCA80044002200140, 0x0090024060024001, 0x0110002000280400, 0x0002020020081040,
    0x008A808004000803, 0x0402008080040002, 0x1402040002018850, 0x4000060021870444,
    0x0480400480008420, 0x0200200240005001, 0x0000200080100080, 0x0210100080800800,
    0x0408000900050011, 0x0001040801201040, 0x0000040101000200, 0x050B008600004C01,
    0x1040204000800080, 0x00114A2000C01000, 0x4064108202004020, 0x5014400A02001021,
    0x2000080005001100, 0x8100800400800200, 0xB400800200800100, 0x0500106102000084,
    0x02C0400020928000, 0x0210002000424002, 0x8008102001010044, 0x4400080010008080,
    0x0000040801010010, 0x00E8402004080110, 0x0004214210040008, 0x0021008044020011,
    0x1800400080002080, 0x0120008020400080, 0x1010200100441900, 0x0008220008401200,
    0x0000800800040080, 0x2020020080040080, 0x6100028108100400, 0x0028410080441A00,
    0x4042102A41020082, 0x0401820220401502, 0x1890102082000842, 0x80042AC00A003022,
    0x0246002010C81412, 0x00020038100114A2, 0x0200100100C80224, 0x4302040586210846,
];

/// For each square, the number of index bits of the rook's attack table.
pub const ROOK_BITS: [u32; 64] = [
    12, 11, 11, 11, 11, 11, 11, 12,
    11, 10, 10, 10, 10, 10, 10, 11,
    11, 10, 10, 10, 10, 10, 10, 11,
    11, 10, 10, 10, 10, 10, 10, 11,
    11, 10, 10, 10, 10, 10, 10, 11,
    11, 10, 10, 10, 10, 10, 10, 11,
    11, 10, 10, 10, 10, 10, 10, 11,
    12, 11, 11, 11, 11, 11, 11, 12,
];

/// For each square, the number of index bits of the bishop's attack table.
pub const BISHOP_BITS: [u32; 64] = [
    6, 5, 5, 5, 5, 5, 5, 6,
    5, 5, 5, 5, 5, 5, 5, 5,
    5, 5, 7, 7, 7, 7, 5, 5,
    5, 5, 7, 9, 9, 7, 5, 5,
    5, 5, 7, 9, 9, 7, 5, 5,
    5, 5, 7, 7, 7, 7, 5, 5,
    5, 5, 5, 5, 5, 5, 5, 5,
    6, 5, 5, 5, 5, 5, 5, 6,
];

/// Every attack table has between one and twelve index bits.
pub proof fn lemma_index_bits(sq: int)
    requires
        0 <= sq < 64,
    ensures
        1 <= ROOK_BITS[sq] <= 12,
        1 <= BISHOP_BITS[sq] <= 12,
{
}

} // verus!
