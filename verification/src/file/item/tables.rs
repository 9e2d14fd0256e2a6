//! Encryption tables of the item data file.

use vstd::prelude::*;

verus! {

/// The decryption table of item data.
pub open spec fn decode_table(b: u8) -> u8 {
    if b == 0 { 42 } else if b == 1 { 80 } else if b == 2 { 117 } else if b == 3 { 123 } else if b == 4 { 69 } else if b == 5 { 144 } else if b == 6 { 238 } else if b == 7 { 159 } else if b == 8 { 240 } else if b == 9 { 237 } else if b == 10 { 133 } else if b == 11 { 45 } else if b == 12 { 246 } else if b == 13 { 219 } else if b == 14 { 100 } else if b == 15 { 101 } else if b == 16 { 198 } else if b == 17 { 173 } else if b == 18 { 110 } else if b == 19 { 131 } else if b == 20 { 38 } else if b == 21 { 142 } else if b == 22 { 216 } else if b == 23 { 227 } else if b == 24 { 92 } else if b == 25 { 180 } else if b == 26 { 20 } else if b == 27 { 217 } else if b == 28 { 49 } else if b == 29 { 245 } else if b == 30 { 233 } else if b == 31 { 109 } else if b == 32 { 132 } else if b == 33 { 179 } else if b == 34 { 236 } else if b == 35 { 169 } else if b == 36 { 254 } else if b == 37 { 122 } else if b == 38 { 76 } else if b == 39 { 9 } else if b == 40 { 26 } else if b == 41 { 202 } else if b == 42 { 58 } else if b == 43 { 81 } else if b == 44 { 99 } else if b == 45 { 104 } else if b == 46 { 177 } else if b == 47 { 247 } else if b == 48 { 2 } else if b == 49 { 145 } else if b == 50 { 220 } else if b == 51 { 199 } else if b == 52 { 208 } else if b == 53 { 164 } else if b == 54 { 11 } else if b == 55 { 46 } else if b == 56 { 241 } else if b == 57 { 175 } else if b == 58 { 171 } else if b == 59 { 119 } else if b == 60 { 64 } else if b == 61 { 63 } else if b == 62 { 1 } else if b == 63 { 30 } else if b == 64 { 84 } else if b == 65 { 231 } else if b == 66 { 125 } else if b == 67 { 118 } else if b == 68 { 33 } else if b == 69 { 184 } else if b == 70 { 75 } else if b == 71 { 7 } else if b == 72 { 188 } else if b == 73 { 165 } else if b == 74 { 106 } else if b == 75 { 141 } else if b == 76 { 105 } else if b == 77 { 53 } else if b == 78 { 34 } else if b == 79 { 205 } else if b == 80 { 167 } else if b == 81 { 94 } else if b == 82 { 163 } else if b == 83 { 73 } else if b == 84 { 140 } else if b == 85 { 62 } else if b == 86 { 54 } else if b == 87 { 87 } else if b == 88 { 143 } else if b == 89 { 211 } else if b == 90 { 6 } else if b == 91 { 251 } else if b == 92 { 226 } else if b == 93 { 201 } else if b == 94 { 111 } else if b == 95 { 255 } else if b == 96 { 124 } else if b == 97 { 221 } else if b == 98 { 65 } else if b == 99 { 37 } else if b == 100 { 187 } else if b == 101 { 190 } else if b == 102 { 108 } else if b == 103 { 120 } else if b == 104 { 102 } else if b == 105 { 113 } else if b == 106 { 232 } else if b == 107 { 215 } else if b == 108 { 57 } else if b == 109 { 244 } else if b == 110 { 27 } else if b == 111 { 203 } else if b == 112 { 107 } else if b == 113 { 126 } else if b == 114 { 209 } else if b == 115 { 166 } else if b == 116 { 206 } else if b == 117 { 35 } else if b == 118 { 32 } else if b == 119 { 86 } else if b == 120 { 83 } else if b == 121 { 89 } else if b == 122 { 31 } else if b == 123 { 135 } else if b == 124 { 243 } else if b == 125 { 61 } else if b == 126 { 224 } else if b == 127 { 43 } else if b == 128 { 204 } else if b == 129 { 90 } else if b == 130 { 130 } else if b == 131 { 151 } else if b == 132 { 197 } else if b == 133 { 196 } else if b == 134 { 213 } else if b == 135 { 181 } else if b == 136 { 250 } else if b == 137 { 222 } else if b == 138 { 15 } else if b == 139 { 71 } else if b == 140 { 40 } else if b == 141 { 158 } else if b == 142 { 8 } else if b == 143 { 91 } else if b == 144 { 183 } else if b == 145 { 39 } else if b == 146 { 248 } else if b == 147 { 192 } else if b == 148 { 55 } else if b == 149 { 223 } else if b == 150 { 56 } else if b == 151 { 47 } else if b == 152 { 50 } else if b == 153 { 21 } else if b == 154 { 114 } else if b == 155 { 189 } else if b == 156 { 44 } else if b == 157 { 116 } else if b == 158 { 154 } else if b == 159 { 10 } else if b == 160 { 36 } else if b == 161 { 134 } else if b == 162 { 225 } else if b == 163 { 195 } else if b == 164 { 4 } else if b == 165 { 60 } else if b == 166 { 186 } else if b == 167 { 16 } else if b == 168 { 155 } else if b == 169 { 19 } else if b == 170 { 121 } else if b == 171 { 178 } else if b == 172 { 230 } else if b == 173 { 156 } else if b == 174 { 191 } else if b == 175 { 212 } else if b == 176 { 147 } else if b == 177 { 218 } else if b == 178 { 161 } else if b == 179 { 95 } else if b == 180 { 18 } else if b == 181 { 207 } else if b == 182 { 185 } else if b == 183 { 228 } else if b == 184 { 23 } else if b == 185 { 0 } else if b == 186 { 22 } else if b == 187 { 41 } else if b == 188 { 152 } else if b == 189 { 28 } else if b == 190 { 162 } else if b == 191 { 193 } else if b == 192 { 127 } else if b == 193 { 235 } else if b == 194 { 78 } else if b == 195 { 82 } else if b == 196 { 168 } else if b == 197 { 239 } else if b == 198 { 150 } else if b == 199 { 72 } else if b == 200 { 3 } else if b == 201 { 214 } else if b == 202 { 77 } else if b == 203 { 48 } else if b == 204 { 128 } else if b == 205 { 182 } else if b == 206 { 29 } else if b == 207 { 249 } else if b == 208 { 67 } else if b == 209 { 93 } else if b == 210 { 210 } else if b == 211 { 103 } else if b == 212 { 66 } else if b == 213 { 149 } else if b == 214 { 17 } else if b == 215 { 229 } else if b == 216 { 25 } else if b == 217 { 115 } else if b == 218 { 153 } else if b == 219 { 157 } else if b == 220 { 68 } else if b == 221 { 253 } else if b == 222 { 12 } else if b == 223 { 194 } else if b == 224 { 174 } else if b == 225 { 137 } else if b == 226 { 59 } else if b == 227 { 5 } else if b == 228 { 136 } else if b == 229 { 129 } else if b == 230 { 97 } else if b == 231 { 252 } else if b == 232 { 79 } else if b == 233 { 146 } else if b == 234 { 98 } else if b == 235 { 172 } else if b == 236 { 176 } else if b == 237 { 24 } else if b == 238 { 138 } else if b == 239 { 51 } else if b == 240 { 13 } else if b == 241 { 200 } else if b == 242 { 170 } else if b == 243 { 14 } else if b == 244 { 88 } else if b == 245 { 234 } else if b == 246 { 160 } else if b == 247 { 112 } else if b == 248 { 70 } else if b == 249 { 74 } else if b == 250 { 148 } else if b == 251 { 242 } else if b == 252 { 96 } else if b == 253 { 85 } else if b == 254 { 52 } else { 139 }
}

/// The encryption table of item data (the inverse of [`decode_table`]).
pub open spec fn encode_table(b: u8) -> u8 {
    if b == 0 { 185 } else if b == 1 { 62 } else if b == 2 { 48 } else if b == 3 { 200 } else if b == 4 { 164 } else if b == 5 { 227 } else if b == 6 { 90 } else if b == 7 { 71 } else if b == 8 { 142 } else if b == 9 { 39 } else if b == 10 { 159 } else if b == 11 { 54 } else if b == 12 { 222 } else if b == 13 { 240 } else if b == 14 { 243 } else if b == 15 { 138 } else if b == 16 { 167 } else if b == 17 { 214 } else if b == 18 { 180 } else if b == 19 { 169 } else if b == 20 { 26 } else if b == 21 { 153 } else if b == 22 { 186 } else if b == 23 { 184 } else if b == 24 { 237 } else if b == 25 { 216 } else if b == 26 { 40 } else if b == 27 { 110 } else if b == 28 { 189 } else if b == 29 { 206 } else if b == 30 { 63 } else if b == 31 { 122 } else if b == 32 { 118 } else if b == 33 { 68 } else if b == 34 { 78 } else if b == 35 { 117 } else if b == 36 { 160 } else if b == 37 { 99 } else if b == 38 { 20 } else if b == 39 { 145 } else if b == 40 { 140 } else if b == 41 { 187 } else if b == 42 { 0 } else if b == 43 { 127 } else if b == 44 { 156 } else if b == 45 { 11 } else if b == 46 { 55 } else if b == 47 { 151 } else if b == 48 { 203 } else if b == 49 { 28 } else if b == 50 { 152 } else if b == 51 { 239 } else if b == 52 { 254 } else if b == 53 { 77 } else if b == 54 { 86 } else if b == 55 { 148 } else if b == 56 { 150 } else if b == 57 { 108 } else if b == 58 { 42 } else if b == 59 { 226 } else if b == 60 { 165 } else if b == 61 { 125 } else if b == 62 { 85 } else if b == 63 { 61 } else if b == 64 { 60 } else if b == 65 { 98 } else if b == 66 { 212 } else if b == 67 { 208 } else if b == 68 { 220 } else if b == 69 { 4 } else if b == 70 { 248 } else if b == 71 { 139 } else if b == 72 { 199 } else if b == 73 { 83 } else if b == 74 { 249 } else if b == 75 { 70 } else if b == 76 { 38 } else if b == 77 { 202 } else if b == 78 { 194 } else if b == 79 { 232 } else if b == 80 { 1 } else if b == 81 { 43 } else if b == 82 { 195 } else if b == 83 { 120 } else if b == 84 { 64 } else if b == 85 { 253 } else if b == 86 { 119 } else if b == 87 { 87 } else if b == 88 { 244 } else if b == 89 { 121 } else if b == 90 { 129 } else if b == 91 { 143 } else if b == 92 { 24 } else if b == 93 { 209 } else if b == 94 { 81 } else if b == 95 { 179 } else if b == 96 { 252 } else if b == 97 { 230 } else if b == 98 { 234 } else if b == 99 { 44 } else if b == 100 { 14 } else if b == 101 { 15 } else if b == 102 { 104 } else if b == 103 { 211 } else if b == 104 { 45 } else if b == 105 { 76 } else if b == 106 { 74 } else if b == 107 { 112 } else if b == 108 { 102 } else if b == 109 { 31 } else if b == 110 { 18 } else if b == 111 { 94 } else if b == 112 { 247 } else if b == 113 { 105 } else if b == 114 { 154 } else if b == 115 { 217 } else if b == 116 { 157 } else if b == 117 { 2 } else if b == 118 { 67 } else if b == 119 { 59 } else if b == 120 { 103 } else if b == 121 { 170 } else if b == 122 { 37 } else if b == 123 { 3 } else if b == 124 { 96 } else if b == 125 { 66 } else if b == 126 { 113 } else if b == 127 { 192 } else if b == 128 { 204 } else if b == 129 { 229 } else if b == 130 { 130 } else if b == 131 { 19 } else if b == 132 { 32 } else if b == 133 { 10 } else if b == 134 { 161 } else if b == 135 { 123 } else if b == 136 { 228 } else if b == 137 { 225 } else if b == 138 { 238 } else if b == 139 { 255 } else if b == 140 { 84 } else if b == 141 { 75 } else if b == 142 { 21 } else if b == 143 { 88 } else if b == 144 { 5 } else if b == 145 { 49 } else if b == 146 { 233 } else if b == 147 { 176 } else if b == 148 { 250 } else if b == 149 { 213 } else if b == 150 { 198 } else if b == 151 { 131 } else if b == 152 { 188 } else if b == 153 { 218 } else if b == 154 { 158 } else if b == 155 { 168 } else if b == 156 { 173 } else if b == 157 { 219 } else if b == 158 { 141 } else if b == 159 { 7 } else if b == 160 { 246 } else if b == 161 { 178 } else if b == 162 { 190 } else if b == 163 { 82 } else if b == 164 { 53 } else if b == 165 { 73 } else if b == 166 { 115 } else if b == 167 { 80 } else if b == 168 { 196 } else if b == 169 { 35 } else if b == 170 { 242 } else if b == 171 { 58 } else if b == 172 { 235 } else if b == 173 { 17 } else if b == 174 { 224 } else if b == 175 { 57 } else if b == 176 { 236 } else if b == 177 { 46 } else if b == 178 { 171 } else if b == 179 { 33 } else if b == 180 { 25 } else if b == 181 { 135 } else if b == 182 { 205 } else if b == 183 { 144 } else if b == 184 { 69 } else if b == 185 { 182 } else if b == 186 { 166 } else if b == 187 { 100 } else if b == 188 { 72 } else if b == 189 { 155 } else if b == 190 { 101 } else if b == 191 { 174 } else if b == 192 { 147 } else if b == 193 { 191 } else if b == 194 { 223 } else if b == 195 { 163 } else if b == 196 { 133 } else if b == 197 { 132 } else if b == 198 { 16 } else if b == 199 { 51 } else if b == 200 { 241 } else if b == 201 { 93 } else if b == 202 { 41 } else if b == 203 { 111 } else if b == 204 { 128 } else if b == 205 { 79 } else if b == 206 { 116 } else if b == 207 { 181 } else if b == 208 { 52 } else if b == 209 { 114 } else if b == 210 { 210 } else if b == 211 { 89 } else if b == 212 { 175 } else if b == 213 { 134 } else if b == 214 { 201 } else if b == 215 { 107 } else if b == 216 { 22 } else if b == 217 { 27 } else if b == 218 { 177 } else if b == 219 { 13 } else if b == 220 { 50 } else if b == 221 { 97 } else if b == 222 { 137 } else if b == 223 { 149 } else if b == 224 { 126 } else if b == 225 { 162 } else if b == 226 { 92 } else if b == 227 { 23 } else if b == 228 { 183 } else if b == 229 { 215 } else if b == 230 { 172 } else if b == 231 { 65 } else if b == 232 { 106 } else if b == 233 { 30 } else if b == 234 { 245 } else if b == 235 { 193 } else if b == 236 { 34 } else if b == 237 { 9 } else if b == 238 { 6 } else if b == 239 { 197 } else if b == 240 { 8 } else if b == 241 { 56 } else if b == 242 { 251 } else if b == 243 { 124 } else if b == 244 { 109 } else if b == 245 { 29 } else if b == 246 { 12 } else if b == 247 { 47 } else if b == 248 { 146 } else if b == 249 { 207 } else if b == 250 { 136 } else if b == 251 { 91 } else if b == 252 { 231 } else if b == 253 { 221 } else if b == 254 { 36 } else { 95 }
}

/// Decrypts one byte of item data.
pub fn decode_byte(b: u8) -> (r: u8)
    ensures
        r == decode_table(b),
{
    match b {
        0 => 42,
        1 => 80,
        2 => 117,
        3 => 123,
        4 => 69,
        5 => 144,
        6 => 238,
        7 => 159,
        8 => 240,
        9 => 237,
        10 => 133,
        11 => 45,
        12 => 246,
        13 => 219,
        14 => 100,
        15 => 101,
        16 => 198,
        17 => 173,
        18 => 110,
        19 => 131,
        20 => 38,
        21 => 142,
        22 => 216,
        23 => 227,
        24 => 92,
        25 => 180,
        26 => 20,
        27 => 217,
        28 => 49,
        29 => 245,
        30 => 233,
        31 => 109,
        32 => 132,
        33 => 179,
        34 => 236,
        35 => 169,
        36 => 254,
        37 => 122,
        38 => 76,
        39 => 9,
        40 => 26,
        41 => 202,
        42 => 58,
        43 => 81,
        44 => 99,
        45 => 104,
        46 => 177,
        47 => 247,
        48 => 2,
        49 => 145,
        50 => 220,
        51 => 199,
        52 => 208,
        53 => 164,
        54 => 11,
        55 => 46,
        56 => 241,
        57 => 175,
        58 => 171,
        59 => 119,
        60 => 64,
        61 => 63,
        62 => 1,
        63 => 30,
        64 => 84,
        65 => 231,
        66 => 125,
        67 => 118,
        68 => 33,
        69 => 184,
        70 => 75,
        71 => 7,
        72 => 188,
        73 => 165,
        74 => 106,
        75 => 141,
        76 => 105,
        77 => 53,
        78 => 34,
        79 => 205,
        80 => 167,
        81 => 94,
        82 => 163,
        83 => 73,
        84 => 140,
        85 => 62,
        86 => 54,
        87 => 87,
        88 => 143,
        89 => 211,
        90 => 6,
        91 => 251,
        92 => 226,
        93 => 201,
        94 => 111,
        95 => 255,
        96 => 124,
        97 => 221,
        98 => 65,
        99 => 37,
        100 => 187,
        101 => 190,
        102 => 108,
        103 => 120,
        104 => 102,
        105 => 113,
        106 => 232,
        107 => 215,
        108 => 57,
        109 => 244,
        110 => 27,
        111 => 203,
        112 => 107,
        113 => 126,
        114 => 209,
        115 => 166,
        116 => 206,
        117 => 35,
        118 => 32,
        119 => 86,
        120 => 83,
        121 => 89,
        122 => 31,
        123 => 135,
        124 => 243,
        125 => 61,
        126 => 224,
        127 => 43,
        128 => 204,
        129 => 90,
        130 => 130,
        131 => 151,
        132 => 197,
        133 => 196,
        134 => 213,
        135 => 181,
        136 => 250,
        137 => 222,
        138 => 15,
        139 => 71,
        140 => 40,
        141 => 158,
        142 => 8,
        143 => 91,
        144 => 183,
        145 => 39,
        146 => 248,
        147 => 192,
        148 => 55,
        149 => 223,
        150 => 56,
        151 => 47,
        152 => 50,
        153 => 21,
        154 => 114,
        155 => 189,
        156 => 44,
        157 => 116,
        158 => 154,
        159 => 10,
        160 => 36,
        161 => 134,
        162 => 225,
        163 => 195,
        164 => 4,
        165 => 60,
        166 => 186,
        167 => 16,
        168 => 155,
        169 => 19,
        170 => 121,
        171 => 178,
        172 => 230,
        173 => 156,
        174 => 191,
        175 => 212,
        176 => 147,
        177 => 218,
        178 => 161,
        179 => 95,
        180 => 18,
        181 => 207,
        182 => 185,
        183 => 228,
        184 => 23,
        185 => 0,
        186 => 22,
        187 => 41,
        188 => 152,
        189 => 28,
        190 => 162,
        191 => 193,
        192 => 127,
        193 => 235,
        194 => 78,
        195 => 82,
        196 => 168,
        197 => 239,
        198 => 150,
        199 => 72,
        200 => 3,
        201 => 214,
        202 => 77,
        203 => 48,
        204 => 128,
        205 => 182,
        206 => 29,
        207 => 249,
        208 => 67,
        209 => 93,
        210 => 210,
        211 => 103,
        212 => 66,
        213 => 149,
        214 => 17,
        215 => 229,
        216 => 25,
        217 => 115,
        218 => 153,
        219 => 157,
        220 => 68,
        221 => 253,
        222 => 12,
        223 => 194,
        224 => 174,
        225 => 137,
        226 => 59,
        227 => 5,
        228 => 136,
        229 => 129,
        230 => 97,
        231 => 252,
        232 => 79,
        233 => 146,
        234 => 98,
        235 => 172,
        236 => 176,
        237 => 24,
        238 => 138,
        239 => 51,
        240 => 13,
        241 => 200,
        242 => 170,
        243 => 14,
        244 => 88,
        245 => 234,
        246 => 160,
        247 => 112,
        248 => 70,
        249 => 74,
        250 => 148,
        251 => 242,
        252 => 96,
        253 => 85,
        254 => 52,
        _ => 139,
    }
}

/// Encrypts one byte of item data.
pub fn encode_byte(b: u8) -> (r: u8)
    ensures
        r == encode_table(b),
{
    match b {
        0 => 185,
        1 => 62,
        2 => 48,
        3 => 200,
        4 => 164,
        5 => 227,
        6 => 90,
        7 => 71,
        8 => 142,
        9 => 39,
        10 => 159,
        11 => 54,
        12 => 222,
        13 => 240,
        14 => 243,
        15 => 138,
        16 => 167,
        17 => 214,
        18 => 180,
        19 => 169,
        20 => 26,
        21 => 153,
        22 => 186,
        23 => 184,
        24 => 237,
        25 => 216,
        26 => 40,
        27 => 110,
        28 => 189,
        29 => 206,
        30 => 63,
        31 => 122,
        32 => 118,
        33 => 68,
        34 => 78,
        35 => 117,
        36 => 160,
        37 => 99,
        38 => 20,
        39 => 145,
        40 => 140,
        41 => 187,
        42 => 0,
        43 => 127,
        44 => 156,
        45 => 11,
        46 => 55,
        47 => 151,
        48 => 203,
        49 => 28,
        50 => 152,
        51 => 239,
        52 => 254,
        53 => 77,
        54 => 86,
        55 => 148,
        56 => 150,
        57 => 108,
        58 => 42,
        59 => 226,
        60 => 165,
        61 => 125,
        62 => 85,
        63 => 61,
        64 => 60,
        65 => 98,
        66 => 212,
        67 => 208,
        68 => 220,
        69 => 4,
        70 => 248,
        71 => 139,
        72 => 199,
        73 => 83,
        74 => 249,
        75 => 70,
        76 => 38,
        77 => 202,
        78 => 194,
        79 => 232,
        80 => 1,
        81 => 43,
        82 => 195,
        83 => 120,
        84 => 64,
        85 => 253,
        86 => 119,
        87 => 87,
        88 => 244,
        89 => 121,
        90 => 129,
        91 => 143,
        92 => 24,
        93 => 209,
        94 => 81,
        95 => 179,
        96 => 252,
        97 => 230,
        98 => 234,
        99 => 44,
        100 => 14,
        101 => 15,
        102 => 104,
        103 => 211,
        104 => 45,
        105 => 76,
        106 => 74,
        107 => 112,
        108 => 102,
        109 => 31,
        110 => 18,
        111 => 94,
        112 => 247,
        113 => 105,
        114 => 154,
        115 => 217,
        116 => 157,
        117 => 2,
        118 => 67,
        119 => 59,
        120 => 103,
        121 => 170,
        122 => 37,
        123 => 3,
        124 => 96,
        125 => 66,
        126 => 113,
        127 => 192,
        128 => 204,
        129 => 229,
        130 => 130,
        131 => 19,
        132 => 32,
        133 => 10,
        134 => 161,
        135 => 123,
        136 => 228,
        137 => 225,
        138 => 238,
        139 => 255,
        140 => 84,
        141 => 75,
        142 => 21,
        143 => 88,
        144 => 5,
        145 => 49,
        146 => 233,
        147 => 176,
        148 => 250,
        149 => 213,
        150 => 198,
        151 => 131,
        152 => 188,
        153 => 218,
        154 => 158,
        155 => 168,
        156 => 173,
        157 => 219,
        158 => 141,
        159 => 7,
        160 => 246,
        161 => 178,
        162 => 190,
        163 => 82,
        164 => 53,
        165 => 73,
        166 => 115,
        167 => 80,
        168 => 196,
        169 => 35,
        170 => 242,
        171 => 58,
        172 => 235,
        173 => 17,
        174 => 224,
        175 => 57,
        176 => 236,
        177 => 46,
        178 => 171,
        179 => 33,
        180 => 25,
        181 => 135,
        182 => 205,
        183 => 144,
        184 => 69,
        185 => 182,
        186 => 166,
        187 => 100,
        188 => 72,
        189 => 155,
        190 => 101,
        191 => 174,
        192 => 147,
        193 => 191,
        194 => 223,
        195 => 163,
        196 => 133,
        197 => 132,
        198 => 16,
        199 => 51,
        200 => 241,
        201 => 93,
        202 => 41,
        203 => 111,
        204 => 128,
        205 => 79,
        206 => 116,
        207 => 181,
        208 => 52,
        209 => 114,
        210 => 210,
        211 => 89,
        212 => 175,
        213 => 134,
        214 => 201,
        215 => 107,
        216 => 22,
        217 => 27,
        218 => 177,
        219 => 13,
        220 => 50,
        221 => 97,
        222 => 137,
        223 => 149,
        224 => 126,
        225 => 162,
        226 => 92,
        227 => 23,
        228 => 183,
        229 => 215,
        230 => 172,
        231 => 65,
        232 => 106,
        233 => 30,
        234 => 245,
        235 => 193,
        236 => 34,
        237 => 9,
        238 => 6,
        239 => 197,
        240 => 8,
        241 => 56,
        242 => 251,
        243 => 124,
        244 => 109,
        245 => 29,
        246 => 12,
        247 => 47,
        248 => 146,
        249 => 207,
        250 => 136,
        251 => 91,
        252 => 231,
        253 => 221,
        254 => 36,
        _ => 95,
    }
}

/// The two tables are inverse permutations of the byte values.
#[verifier::rlimit(100)]
#[verifier::spinoff_prover]
pub proof fn lemma_tables_inverse()
    ensures
        forall|b: u8| #[trigger] encode_table(decode_table(b)) == b,
        forall|b: u8| #[trigger] decode_table(encode_table(b)) == b,
{
    assert(forall|b: u8| #[trigger] encode_table(decode_table(b)) == b);
    assert(forall|b: u8| #[trigger] decode_table(encode_table(b)) == b);
}

/// Decryption follows the game's fixed table, entry by entry (0x00
/// decrypts to 0x2A, 0x01 to 0x50, and so on through 0xFF).
#[verifier::rlimit(100)]
pub proof fn lemma_game_decode_table()
    ensures
        decode_table(0x00) == 0x2A,
        decode_table(0x01) == 0x50,
        decode_table(0x02) == 0x75,
        decode_table(0x03) == 0x7B,
        decode_table(0x04) == 0x45,
        decode_table(0x05) == 0x90,
        decode_table(0x06) == 0xEE,
        decode_table(0x07) == 0x9F,
        decode_table(0x08) == 0xF0,
        decode_table(0x09) == 0xED,
        decode_table(0x0A) == 0x85,
        decode_table(0x0B) == 0x2D,
        decode_table(0x0C) == 0xF6,
        decode_table(0x0D) == 0xDB,
        decode_table(0x0E) == 0x64,
        decode_table(0x0F) == 0x65,
        decode_table(0x10) == 0xC6,
        decode_table(0x11) == 0xAD,
        decode_table(0x12) == 0x6E,
        decode_table(0x13) == 0x83,
        decode_table(0x14) == 0x26,
        decode_table(0x15) == 0x8E,
        decode_table(0x16) == 0xD8,
        decode_table(0x17) == 0xE3,
        decode_table(0x18) == 0x5C,
        decode_table(0x19) == 0xB4,
        decode_table(0x1A) == 0x14,
        decode_table(0x1B) == 0xD9,
        decode_table(0x1C) == 0x31,
        decode_table(0x1D) == 0xF5,
        decode_table(0x1E) == 0xE9,
        decode_table(0x1F) == 0x6D,
        decode_table(0x20) == 0x84,
        decode_table(0x21) == 0xB3,
        decode_table(0x22) == 0xEC,
        decode_table(0x23) == 0xA9,
        decode_table(0x24) == 0xFE,
        decode_table(0x25) == 0x7A,
        decode_table(0x26) == 0x4C,
        decode_table(0x27) == 0x09,
        decode_table(0x28) == 0x1A,
        decode_table(0x29) == 0xCA,
        decode_table(0x2A) == 0x3A,
        decode_table(0x2B) == 0x51,
        decode_table(0x2C) == 0x63,
        decode_table(0x2D) == 0x68,
        decode_table(0x2E) == 0xB1,
        decode_table(0x2F) == 0xF7,
        decode_table(0x30) == 0x02,
        decode_table(0x31) == 0x91,
        decode_table(0x32) == 0xDC,
        decode_table(0x33) == 0xC7,
        decode_table(0x34) == 0xD0,
        decode_table(0x35) == 0xA4,
        decode_table(0x36) == 0x0B,
        decode_table(0x37) == 0x2E,
        decode_table(0x38) == 0xF1,
        decode_table(0x39) == 0xAF,
        decode_table(0x3A) == 0xAB,
        decode_table(0x3B) == 0x77,
        decode_table(0x3C) == 0x40,
        decode_table(0x3D) == 0x3F,
        decode_table(0x3E) == 0x01,
        decode_table(0x3F) == 0x1E,
        decode_table(0x40) == 0x54,
        decode_table(0x41) == 0xE7,
        decode_table(0x42) == 0x7D,
        decode_table(0x43) == 0x76,
        decode_table(0x44) == 0x21,
        decode_table(0x45) == 0xB8,
        decode_table(0x46) == 0x4B,
        decode_table(0x47) == 0x07,
        decode_table(0x48) == 0xBC,
        decode_table(0x49) == 0xA5,
        decode_table(0x4A) == 0x6A,
        decode_table(0x4B) == 0x8D,
        decode_table(0x4C) == 0x69,
        decode_table(0x4D) == 0x35,
        decode_table(0x4E) == 0x22,
        decode_table(0x4F) == 0xCD,
        decode_table(0x50) == 0xA7,
        decode_table(0x51) == 0x5E,
        decode_table(0x52) == 0xA3,
        decode_table(0x53) == 0x49,
        decode_table(0x54) == 0x8C,
        decode_table(0x55) == 0x3E,
        decode_table(0x56) == 0x36,
        decode_table(0x57) == 0x57,
        decode_table(0x58) == 0x8F,
        decode_table(0x59) == 0xD3,
        decode_table(0x5A) == 0x06,
        decode_table(0x5B) == 0xFB,
        decode_table(0x5C) == 0xE2,
        decode_table(0x5D) == 0xC9,
        decode_table(0x5E) == 0x6F,
        decode_table(0x5F) == 0xFF,
        decode_table(0x60) == 0x7C,
        decode_table(0x61) == 0xDD,
        decode_table(0x62) == 0x41,
        decode_table(0x63) == 0x25,
        decode_table(0x64) == 0xBB,
        decode_table(0x65) == 0xBE,
        decode_table(0x66) == 0x6C,
        decode_table(0x67) == 0x78,
        decode_table(0x68) == 0x66,
        decode_table(0x69) == 0x71,
        decode_table(0x6A) == 0xE8,
        decode_table(0x6B) == 0xD7,
        decode_table(0x6C) == 0x39,
        decode_table(0x6D) == 0xF4,
        decode_table(0x6E) == 0x1B,
        decode_table(0x6F) == 0xCB,
        decode_table(0x70) == 0x6B,
        decode_table(0x71) == 0x7E,
        decode_table(0x72) == 0xD1,
        decode_table(0x73) == 0xA6,
        decode_table(0x74) == 0xCE,
        decode_table(0x75) == 0x23,
        decode_table(0x76) == 0x20,
        decode_table(0x77) == 0x56,
        decode_table(0x78) == 0x53,
        decode_table(0x79) == 0x59,
        decode_table(0x7A) == 0x1F,
        decode_table(0x7B) == 0x87,
        decode_table(0x7C) == 0xF3,
        decode_table(0x7D) == 0x3D,
        decode_table(0x7E) == 0xE0,
        decode_table(0x7F) == 0x2B,
        decode_table(0x80) == 0xCC,
        decode_table(0x81) == 0x5A,
        decode_table(0x82) == 0x82,
        decode_table(0x83) == 0x97,
        decode_table(0x84) == 0xC5,
        decode_table(0x85) == 0xC4,
        decode_table(0x86) == 0xD5,
        decode_table(0x87) == 0xB5,
        decode_table(0x88) == 0xFA,
        decode_table(0x89) == 0xDE,
        decode_table(0x8A) == 0x0F,
        decode_table(0x8B) == 0x47,
        decode_table(0x8C) == 0x28,
        decode_table(0x8D) == 0x9E,
        decode_table(0x8E) == 0x08,
        decode_table(0x8F) == 0x5B,
        decode_table(0x90) == 0xB7,
        decode_table(0x91) == 0x27,
        decode_table(0x92) == 0xF8,
        decode_table(0x93) == 0xC0,
        decode_table(0x94) == 0x37,
        decode_table(0x95) == 0xDF,
        decode_table(0x96) == 0x38,
        decode_table(0x97) == 0x2F,
        decode_table(0x98) == 0x32,
        decode_table(0x99) == 0x15,
        decode_table(0x9A) == 0x72,
        decode_table(0x9B) == 0xBD,
        decode_table(0x9C) == 0x2C,
        decode_table(0x9D) == 0x74,
        decode_table(0x9E) == 0x9A,
        decode_table(0x9F) == 0x0A,
        decode_table(0xA0) == 0x24,
        decode_table(0xA1) == 0x86,
        decode_table(0xA2) == 0xE1,
        decode_table(0xA3) == 0xC3,
        decode_table(0xA4) == 0x04,
        decode_table(0xA5) == 0x3C,
        decode_table(0xA6) == 0xBA,
        decode_table(0xA7) == 0x10,
        decode_table(0xA8) == 0x9B,
        decode_table(0xA9) == 0x13,
        decode_table(0xAA) == 0x79,
        decode_table(0xAB) == 0xB2,
        decode_table(0xAC) == 0xE6,
        decode_table(0xAD) == 0x9C,
        decode_table(0xAE) == 0xBF,
        decode_table(0xAF) == 0xD4,
        decode_table(0xB0) == 0x93,
        decode_table(0xB1) == 0xDA,
        decode_table(0xB2) == 0xA1,
        decode_table(0xB3) == 0x5F,
        decode_table(0xB4) == 0x12,
        decode_table(0xB5) == 0xCF,
        decode_table(0xB6) == 0xB9,
        decode_table(0xB7) == 0xE4,
        decode_table(0xB8) == 0x17,
        decode_table(0xB9) == 0x00,
        decode_table(0xBA) == 0x16,
        decode_table(0xBB) == 0x29,
        decode_table(0xBC) == 0x98,
        decode_table(0xBD) == 0x1C,
        decode_table(0xBE) == 0xA2,
        decode_table(0xBF) == 0xC1,
        decode_table(0xC0) == 0x7F,
        decode_table(0xC1) == 0xEB,
        decode_table(0xC2) == 0x4E,
        decode_table(0xC3) == 0x52,
        decode_table(0xC4) == 0xA8,
        decode_table(0xC5) == 0xEF,
        decode_table(0xC6) == 0x96,
        decode_table(0xC7) == 0x48,
        decode_table(0xC8) == 0x03,
        decode_table(0xC9) == 0xD6,
        decode_table(0xCA) == 0x4D,
        decode_table(0xCB) == 0x30,
        decode_table(0xCC) == 0x80,
        decode_table(0xCD) == 0xB6,
        decode_table(0xCE) == 0x1D,
        decode_table(0xCF) == 0xF9,
        decode_table(0xD0) == 0x43,
        decode_table(0xD1) == 0x5D,
        decode_table(0xD2) == 0xD2,
        decode_table(0xD3) == 0x67,
        decode_table(0xD4) == 0x42,
        decode_table(0xD5) == 0x95,
        decode_table(0xD6) == 0x11,
        decode_table(0xD7) == 0xE5,
        decode_table(0xD8) == 0x19,
        decode_table(0xD9) == 0x73,
        decode_table(0xDA) == 0x99,
        decode_table(0xDB) == 0x9D,
        decode_table(0xDC) == 0x44,
        decode_table(0xDD) == 0xFD,
        decode_table(0xDE) == 0x0C,
        decode_table(0xDF) == 0xC2,
        decode_table(0xE0) == 0xAE,
        decode_table(0xE1) == 0x89,
        decode_table(0xE2) == 0x3B,
        decode_table(0xE3) == 0x05,
        decode_table(0xE4) == 0x88,
        decode_table(0xE5) == 0x81,
        decode_table(0xE6) == 0x61,
        decode_table(0xE7) == 0xFC,
        decode_table(0xE8) == 0x4F,
        decode_table(0xE9) == 0x92,
        decode_table(0xEA) == 0x62,
        decode_table(0xEB) == 0xAC,
        decode_table(0xEC) == 0xB0,
        decode_table(0xED) == 0x18,
        decode_table(0xEE) == 0x8A,
        decode_table(0xEF) == 0x33,
        decode_table(0xF0) == 0x0D,
        decode_table(0xF1) == 0xC8,
        decode_table(0xF2) == 0xAA,
        decode_table(0xF3) == 0x0E,
        decode_table(0xF4) == 0x58,
        decode_table(0xF5) == 0xEA,
        decode_table(0xF6) == 0xA0,
        decode_table(0xF7) == 0x70,
        decode_table(0xF8) == 0x46,
        decode_table(0xF9) == 0x4A,
        decode_table(0xFA) == 0x94,
        decode_table(0xFB) == 0xF2,
        decode_table(0xFC) == 0x60,
        decode_table(0xFD) == 0x55,
        decode_table(0xFE) == 0x34,
        decode_table(0xFF) == 0x8B,
{
}

/// Encryption follows the game's fixed table, entry by entry (0x00
/// encrypts to 0xB9, 0x2A to 0x00, and so on through 0xFF).
#[verifier::rlimit(100)]
pub proof fn lemma_game_encode_table()
    ensures
        encode_table(0x00) == 0xB9,
        encode_table(0x01) == 0x3E,
        encode_table(0x02) == 0x30,
        encode_table(0x03) == 0xC8,
        encode_table(0x04) == 0xA4,
        encode_table(0x05) == 0xE3,
        encode_table(0x06) == 0x5A,
        encode_table(0x07) == 0x47,
        encode_table(0x08) == 0x8E,
        encode_table(0x09) == 0x27,
        encode_table(0x0A) == 0x9F,
        encode_table(0x0B) == 0x36,
        encode_table(0x0C) == 0xDE,
        encode_table(0x0D) == 0xF0,
        encode_table(0x0E) == 0xF3,
        encode_table(0x0F) == 0x8A,
        encode_table(0x10) == 0xA7,
        encode_table(0x11) == 0xD6,
        encode_table(0x12) == 0xB4,
        encode_table(0x13) == 0xA9,
        encode_table(0x14) == 0x1A,
        encode_table(0x15) == 0x99,
        encode_table(0x16) == 0xBA,
        encode_table(0x17) == 0xB8,
        encode_table(0x18) == 0xED,
        encode_table(0x19) == 0xD8,
        encode_table(0x1A) == 0x28,
        encode_table(0x1B) == 0x6E,
        encode_table(0x1C) == 0xBD,
        encode_table(0x1D) == 0xCE,
        encode_table(0x1E) == 0x3F,
        encode_table(0x1F) == 0x7A,
        encode_table(0x20) == 0x76,
        encode_table(0x21) == 0x44,
        encode_table(0x22) == 0x4E,
        encode_table(0x23) == 0x75,
        encode_table(0x24) == 0xA0,
        encode_table(0x25) == 0x63,
        encode_table(0x26) == 0x14,
        encode_table(0x27) == 0x91,
        encode_table(0x28) == 0x8C,
        encode_table(0x29) == 0xBB,
        encode_table(0x2A) == 0x00,
        encode_table(0x2B) == 0x7F,
        encode_table(0x2C) == 0x9C,
        encode_table(0x2D) == 0x0B,
        encode_table(0x2E) == 0x37,
        encode_table(0x2F) == 0x97,
        encode_table(0x30) == 0xCB,
        encode_table(0x31) == 0x1C,
        encode_table(0x32) == 0x98,
        encode_table(0x33) == 0xEF,
        encode_table(0x34) == 0xFE,
        encode_table(0x35) == 0x4D,
        encode_table(0x36) == 0x56,
        encode_table(0x37) == 0x94,
        encode_table(0x38) == 0x96,
        encode_table(0x39) == 0x6C,
        encode_table(0x3A) == 0x2A,
        encode_table(0x3B) == 0xE2,
        encode_table(0x3C) == 0xA5,
        encode_table(0x3D) == 0x7D,
        encode_table(0x3E) == 0x55,
        encode_table(0x3F) == 0x3D,
        encode_table(0x40) == 0x3C,
        encode_table(0x41) == 0x62,
        encode_table(0x42) == 0xD4,
        encode_table(0x43) == 0xD0,
        encode_table(0x44) == 0xDC,
        encode_table(0x45) == 0x04,
        encode_table(0x46) == 0xF8,
        encode_table(0x47) == 0x8B,
        encode_table(0x48) == 0xC7,
        encode_table(0x49) == 0x53,
        encode_table(0x4A) == 0xF9,
        encode_table(0x4B) == 0x46,
        encode_table(0x4C) == 0x26,
        encode_table(0x4D) == 0xCA,
        encode_table(0x4E) == 0xC2,
        encode_table(0x4F) == 0xE8,
        encode_table(0x50) == 0x01,
        encode_table(0x51) == 0x2B,
        encode_table(0x52) == 0xC3,
        encode_table(0x53) == 0x78,
        encode_table(0x54) == 0x40,
        encode_table(0x55) == 0xFD,
        encode_table(0x56) == 0x77,
        encode_table(0x57) == 0x57,
        encode_table(0x58) == 0xF4,
        encode_table(0x59) == 0x79,
        encode_table(0x5A) == 0x81,
        encode_table(0x5B) == 0x8F,
        encode_table(0x5C) == 0x18,
        encode_table(0x5D) == 0xD1,
        encode_table(0x5E) == 0x51,
        encode_table(0x5F) == 0xB3,
        encode_table(0x60) == 0xFC,
        encode_table(0x61) == 0xE6,
        encode_table(0x62) == 0xEA,
        encode_table(0x63) == 0x2C,
        encode_table(0x64) == 0x0E,
        encode_table(0x65) == 0x0F,
        encode_table(0x66) == 0x68,
        encode_table(0x67) == 0xD3,
        encode_table(0x68) == 0x2D,
        encode_table(0x69) == 0x4C,
        encode_table(0x6A) == 0x4A,
        encode_table(0x6B) == 0x70,
        encode_table(0x6C) == 0x66,
        encode_table(0x6D) == 0x1F,
        encode_table(0x6E) == 0x12,
        encode_table(0x6F) == 0x5E,
        encode_table(0x70) == 0xF7,
        encode_table(0x71) == 0x69,
        encode_table(0x72) == 0x9A,
        encode_table(0x73) == 0xD9,
        encode_table(0x74) == 0x9D,
        encode_table(0x75) == 0x02,
        encode_table(0x76) == 0x43,
        encode_table(0x77) == 0x3B,
        encode_table(0x78) == 0x67,
        encode_table(0x79) == 0xAA,
        encode_table(0x7A) == 0x25,
        encode_table(0x7B) == 0x03,
        encode_table(0x7C) == 0x60,
        encode_table(0x7D) == 0x42,
        encode_table(0x7E) == 0x71,
        encode_table(0x7F) == 0xC0,
        encode_table(0x80) == 0xCC,
        encode_table(0x81) == 0xE5,
        encode_table(0x82) == 0x82,
        encode_table(0x83) == 0x13,
        encode_table(0x84) == 0x20,
        encode_table(0x85) == 0x0A,
        encode_table(0x86) == 0xA1,
        encode_table(0x87) == 0x7B,
        encode_table(0x88) == 0xE4,
        encode_table(0x89) == 0xE1,
        encode_table(0x8A) == 0xEE,
        encode_table(0x8B) == 0xFF,
        encode_table(0x8C) == 0x54,
        encode_table(0x8D) == 0x4B,
        encode_table(0x8E) == 0x15,
        encode_table(0x8F) == 0x58,
        encode_table(0x90) == 0x05,
        encode_table(0x91) == 0x31,
        encode_table(0x92) == 0xE9,
        encode_table(0x93) == 0xB0,
        encode_table(0x94) == 0xFA,
        encode_table(0x95) == 0xD5,
        encode_table(0x96) == 0xC6,
        encode_table(0x97) == 0x83,
        encode_table(0x98) == 0xBC,
        encode_table(0x99) == 0xDA,
        encode_table(0x9A) == 0x9E,
        encode_table(0x9B) == 0xA8,
        encode_table(0x9C) == 0xAD,
        encode_table(0x9D) == 0xDB,
        encode_table(0x9E) == 0x8D,
        encode_table(0x9F) == 0x07,
        encode_table(0xA0) == 0xF6,
        encode_table(0xA1) == 0xB2,
        encode_table(0xA2) == 0xBE,
        encode_table(0xA3) == 0x52,
        encode_table(0xA4) == 0x35,
        encode_table(0xA5) == 0x49,
        encode_table(0xA6) == 0x73,
        encode_table(0xA7) == 0x50,
        encode_table(0xA8) == 0xC4,
        encode_table(0xA9) == 0x23,
        encode_table(0xAA) == 0xF2,
        encode_table(0xAB) == 0x3A,
        encode_table(0xAC) == 0xEB,
        encode_table(0xAD) == 0x11,
        encode_table(0xAE) == 0xE0,
        encode_table(0xAF) == 0x39,
        encode_table(0xB0) == 0xEC,
        encode_table(0xB1) == 0x2E,
        encode_table(0xB2) == 0xAB,
        encode_table(0xB3) == 0x21,
        encode_table(0xB4) == 0x19,
        encode_table(0xB5) == 0x87,
        encode_table(0xB6) == 0xCD,
        encode_table(0xB7) == 0x90,
        encode_table(0xB8) == 0x45,
        encode_table(0xB9) == 0xB6,
        encode_table(0xBA) == 0xA6,
        encode_table(0xBB) == 0x64,
        encode_table(0xBC) == 0x48,
        encode_table(0xBD) == 0x9B,
        encode_table(0xBE) == 0x65,
        encode_table(0xBF) == 0xAE,
        encode_table(0xC0) == 0x93,
        encode_table(0xC1) == 0xBF,
        encode_table(0xC2) == 0xDF,
        encode_table(0xC3) == 0xA3,
        encode_table(0xC4) == 0x85,
        encode_table(0xC5) == 0x84,
        encode_table(0xC6) == 0x10,
        encode_table(0xC7) == 0x33,
        encode_table(0xC8) == 0xF1,
        encode_table(0xC9) == 0x5D,
        encode_table(0xCA) == 0x29,
        encode_table(0xCB) == 0x6F,
        encode_table(0xCC) == 0x80,
        encode_table(0xCD) == 0x4F,
        encode_table(0xCE) == 0x74,
        encode_table(0xCF) == 0xB5,
        encode_table(0xD0) == 0x34,
        encode_table(0xD1) == 0x72,
        encode_table(0xD2) == 0xD2,
        encode_table(0xD3) == 0x59,
        encode_table(0xD4) == 0xAF,
        encode_table(0xD5) == 0x86,
        encode_table(0xD6) == 0xC9,
        encode_table(0xD7) == 0x6B,
        encode_table(0xD8) == 0x16,
        encode_table(0xD9) == 0x1B,
        encode_table(0xDA) == 0xB1,
        encode_table(0xDB) == 0x0D,
        encode_table(0xDC) == 0x32,
        encode_table(0xDD) == 0x61,
        encode_table(0xDE) == 0x89,
        encode_table(0xDF) == 0x95,
        encode_table(0xE0) == 0x7E,
        encode_table(0xE1) == 0xA2,
        encode_table(0xE2) == 0x5C,
        encode_table(0xE3) == 0x17,
        encode_table(0xE4) == 0xB7,
        encode_table(0xE5) == 0xD7,
        encode_table(0xE6) == 0xAC,
        encode_table(0xE7) == 0x41,
        encode_table(0xE8) == 0x6A,
        encode_table(0xE9) == 0x1E,
        encode_table(0xEA) == 0xF5,
        encode_table(0xEB) == 0xC1,
        encode_table(0xEC) == 0x22,
        encode_table(0xED) == 0x09,
        encode_table(0xEE) == 0x06,
        encode_table(0xEF) == 0xC5,
        encode_table(0xF0) == 0x08,
        encode_table(0xF1) == 0x38,
        encode_table(0xF2) == 0xFB,
        encode_table(0xF3) == 0x7C,
        encode_table(0xF4) == 0x6D,
        encode_table(0xF5) == 0x1D,
        encode_table(0xF6) == 0x0C,
        encode_table(0xF7) == 0x2F,
        encode_table(0xF8) == 0x92,
        encode_table(0xF9) == 0xCF,
        encode_table(0xFA) == 0x88,
        encode_table(0xFB) == 0x5B,
        encode_table(0xFC) == 0xE7,
        encode_table(0xFD) == 0xDD,
        encode_table(0xFE) == 0x24,
        encode_table(0xFF) == 0x5F,
{
}

} // verus!
