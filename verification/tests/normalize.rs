use norm::normalize::normalize;

const FIRST_BATCH: [(char, char); 277] = [
    ('\u{00C0}', 'A'),
    ('\u{00C1}', 'A'),
    ('\u{00C2}', 'A'),
    ('\u{00C3}', 'A'),
    ('\u{00C4}', 'A'),
    ('\u{00C5}', 'A'),
    ('\u{00C7}', 'C'),
    ('\u{00C8}', 'E'),
    ('\u{00C9}', 'E'),
    ('\u{00CA}', 'E'),
    ('\u{00CB}', 'E'),
    ('\u{00CC}', 'I'),
    ('\u{00CD}', 'I'),
    ('\u{00CE}', 'I'),
    ('\u{00CF}', 'I'),
    ('\u{00D1}', 'N'),
    ('\u{00D2}', 'O'),
    ('\u{00D3}', 'O'),
    ('\u{00D4}', 'O'),
    ('\u{00D5}', 'O'),
    ('\u{00D6}', 'O'),
    ('\u{00D8}', 'O'),
    ('\u{00D9}', 'U'),
    ('\u{00DA}', 'U'),
    ('\u{00DB}', 'U'),
    ('\u{00DC}', 'U'),
    ('\u{00DD}', 'Y'),
    ('\u{00DF}', 's'),
    ('\u{00E0}', 'a'),
    ('\u{00E1}', 'a'),
    ('\u{00E2}', 'a'),
    ('\u{00E3}', 'a'),
    ('\u{00E4}', 'a'),
    ('\u{00E5}', 'a'),
    ('\u{00E7}', 'c'),
    ('\u{00E8}', 'e'),
    ('\u{00E9}', 'e'),
    ('\u{00EA}', 'e'),
    ('\u{00EB}', 'e'),
    ('\u{00EC}', 'i'),
    ('\u{00ED}', 'i'),
    ('\u{00EE}', 'i'),
    ('\u{00EF}', 'i'),
    ('\u{00F1}', 'n'),
    ('\u{00F2}', 'o'),
    ('\u{00F3}', 'o'),
    ('\u{00F4}', 'o'),
    ('\u{00F5}', 'o'),
    ('\u{00F6}', 'o'),
    ('\u{00F8}', 'o'),
    ('\u{00F9}', 'u'),
    ('\u{00FA}', 'u'),
    ('\u{00FB}', 'u'),
    ('\u{00FC}', 'u'),
    ('\u{00FD}', 'y'),
    ('\u{00FF}', 'y'),
    ('\u{0101}', 'a'),
    ('\u{0103}', 'a'),
    ('\u{0105}', 'a'),
    ('\u{0107}', 'c'),
    ('\u{0109}', 'c'),
    ('\u{010B}', 'c'),
    ('\u{010D}', 'c'),
    ('\u{010F}', 'd'),
    ('\u{0111}', 'd'),
    ('\u{0113}', 'e'),
    ('\u{0115}', 'e'),
    ('\u{0117}', 'e'),
    ('\u{0119}', 'e'),
    ('\u{011B}', 'e'),
    ('\u{011D}', 'g'),
    ('\u{011F}', 'g'),
    ('\u{0121}', 'g'),
    ('\u{0123}', 'g'),
    ('\u{0125}', 'h'),
    ('\u{0127}', 'h'),
    ('\u{0129}', 'i'),
    ('\u{012B}', 'i'),
    ('\u{012D}', 'i'),
    ('\u{012F}', 'i'),
    ('\u{0130}', 'I'),
    ('\u{0131}', 'i'),
    ('\u{0135}', 'j'),
    ('\u{0137}', 'k'),
    ('\u{013A}', 'l'),
    ('\u{013C}', 'l'),
    ('\u{013E}', 'l'),
    ('\u{0140}', 'l'),
    ('\u{0142}', 'l'),
    ('\u{0144}', 'n'),
    ('\u{0146}', 'n'),
    ('\u{0148}', 'n'),
    ('\u{014D}', 'o'),
    ('\u{014F}', 'o'),
    ('\u{0151}', 'o'),
    ('\u{0155}', 'r'),
    ('\u{0157}', 'r'),
    ('\u{0159}', 'r'),
    ('\u{015B}', 's'),
    ('\u{015D}', 's'),
    ('\u{015F}', 's'),
    ('\u{0161}', 's'),
    ('\u{0163}', 't'),
    ('\u{0165}', 't'),
    ('\u{0167}', 't'),
    ('\u{0169}', 'u'),
    ('\u{016B}', 'u'),
    ('\u{016D}', 'u'),
    ('\u{016F}', 'u'),
    ('\u{0171}', 'u'),
    ('\u{0173}', 'u'),
    ('\u{0175}', 'w'),
    ('\u{0177}', 'y'),
    ('\u{0178}', 'Y'),
    ('\u{017A}', 'z'),
    ('\u{017C}', 'z'),
    ('\u{017E}', 'z'),
    ('\u{017F}', 's'),
    ('\u{0180}', 'b'),
    ('\u{0181}', 'B'),
    ('\u{0183}', 'b'),
    ('\u{0186}', 'O'),
    ('\u{0188}', 'c'),
    ('\u{0189}', 'D'),
    ('\u{018A}', 'D'),
    ('\u{018C}', 'd'),
    ('\u{018E}', 'E'),
    ('\u{0190}', 'E'),
    ('\u{0192}', 'f'),
    ('\u{0193}', 'G'),
    ('\u{0197}', 'I'),
    ('\u{0199}', 'k'),
    ('\u{019A}', 'l'),
    ('\u{019C}', 'M'),
    ('\u{019D}', 'N'),
    ('\u{019E}', 'n'),
    ('\u{019F}', 'O'),
    ('\u{01A1}', 'o'),
    ('\u{01A5}', 'p'),
    ('\u{01AB}', 't'),
    ('\u{01AD}', 't'),
    ('\u{01AE}', 'T'),
    ('\u{01B0}', 'u'),
    ('\u{01B2}', 'V'),
    ('\u{01B4}', 'y'),
    ('\u{01B6}', 'z'),
    ('\u{01CE}', 'a'),
    ('\u{01D0}', 'i'),
    ('\u{01D2}', 'o'),
    ('\u{01D4}', 'u'),
    ('\u{01DD}', 'e'),
    ('\u{01E5}', 'g'),
    ('\u{01E7}', 'g'),
    ('\u{01E9}', 'k'),
    ('\u{01EB}', 'o'),
    ('\u{01F0}', 'j'),
    ('\u{01F5}', 'g'),
    ('\u{01F9}', 'n'),
    ('\u{0201}', 'a'),
    ('\u{0203}', 'a'),
    ('\u{0205}', 'e'),
    ('\u{0207}', 'e'),
    ('\u{0209}', 'i'),
    ('\u{020B}', 'i'),
    ('\u{020D}', 'o'),
    ('\u{020F}', 'o'),
    ('\u{0211}', 'r'),
    ('\u{0213}', 'r'),
    ('\u{0215}', 'u'),
    ('\u{0217}', 'u'),
    ('\u{0219}', 's'),
    ('\u{021B}', 't'),
    ('\u{021F}', 'h'),
    ('\u{0220}', 'N'),
    ('\u{0221}', 'd'),
    ('\u{0225}', 'z'),
    ('\u{0227}', 'a'),
    ('\u{0229}', 'e'),
    ('\u{022F}', 'o'),
    ('\u{0233}', 'y'),
    ('\u{0234}', 'l'),
    ('\u{0235}', 'n'),
    ('\u{0236}', 't'),
    ('\u{0237}', 'j'),
    ('\u{023A}', 'A'),
    ('\u{023B}', 'C'),
    ('\u{023C}', 'c'),
    ('\u{023D}', 'L'),
    ('\u{023E}', 'T'),
    ('\u{023F}', 's'),
    ('\u{0240}', 'z'),
    ('\u{0243}', 'B'),
    ('\u{0244}', 'U'),
    ('\u{0245}', 'V'),
    ('\u{0246}', 'E'),
    ('\u{0247}', 'e'),
    ('\u{0248}', 'J'),
    ('\u{0249}', 'j'),
    ('\u{024A}', 'Q'),
    ('\u{024B}', 'q'),
    ('\u{024C}', 'R'),
    ('\u{024D}', 'r'),
    ('\u{024E}', 'Y'),
    ('\u{024F}', 'y'),
    ('\u{0250}', 'a'),
    ('\u{0251}', 'a'),
    ('\u{0253}', 'b'),
    ('\u{0254}', 'o'),
    ('\u{0255}', 'c'),
    ('\u{0256}', 'd'),
    ('\u{0257}', 'd'),
    ('\u{0258}', 'e'),
    ('\u{025B}', 'e'),
    ('\u{025C}', 'e'),
    ('\u{025D}', 'e'),
    ('\u{025E}', 'e'),
    ('\u{025F}', 'j'),
    ('\u{0260}', 'g'),
    ('\u{0261}', 'g'),
    ('\u{0262}', 'G'),
    ('\u{0265}', 'h'),
    ('\u{0266}', 'h'),
    ('\u{0268}', 'i'),
    ('\u{026A}', 'I'),
    ('\u{026B}', 'l'),
    ('\u{026C}', 'l'),
    ('\u{026D}', 'l'),
    ('\u{026F}', 'm'),
    ('\u{0270}', 'm'),
    ('\u{0271}', 'm'),
    ('\u{0272}', 'n'),
    ('\u{0273}', 'n'),
    ('\u{0274}', 'N'),
    ('\u{0275}', 'o'),
    ('\u{0279}', 'r'),
    ('\u{027A}', 'r'),
    ('\u{027B}', 'r'),
    ('\u{027C}', 'r'),
    ('\u{027D}', 'r'),
    ('\u{027E}', 'r'),
    ('\u{027F}', 'r'),
    ('\u{0280}', 'R'),
    ('\u{0281}', 'R'),
    ('\u{0282}', 's'),
    ('\u{0287}', 't'),
    ('\u{0288}', 't'),
    ('\u{0289}', 'u'),
    ('\u{028B}', 'v'),
    ('\u{028C}', 'v'),
    ('\u{028D}', 'w'),
    ('\u{028E}', 'y'),
    ('\u{028F}', 'Y'),
    ('\u{0290}', 'z'),
    ('\u{0291}', 'z'),
    ('\u{0297}', 'c'),
    ('\u{0299}', 'B'),
    ('\u{029A}', 'e'),
    ('\u{029B}', 'G'),
    ('\u{029C}', 'H'),
    ('\u{029D}', 'j'),
    ('\u{029E}', 'k'),
    ('\u{029F}', 'L'),
    ('\u{02A0}', 'q'),
    ('\u{02AE}', 'h'),
    ('\u{0363}', 'a'),
    ('\u{0364}', 'e'),
    ('\u{0365}', 'i'),
    ('\u{0366}', 'o'),
    ('\u{0367}', 'u'),
    ('\u{0368}', 'c'),
    ('\u{0369}', 'd'),
    ('\u{036A}', 'h'),
    ('\u{036B}', 'm'),
    ('\u{036C}', 'r'),
    ('\u{036D}', 't'),
    ('\u{036E}', 'v'),
    ('\u{036F}', 'x'),
];

const SECOND_BATCH: [(char, char); 174] = [
    ('\u{1D00}', 'A'),
    ('\u{1D03}', 'B'),
    ('\u{1D04}', 'C'),
    ('\u{1D05}', 'D'),
    ('\u{1D07}', 'E'),
    ('\u{1D08}', 'e'),
    ('\u{1D09}', 'i'),
    ('\u{1D0A}', 'J'),
    ('\u{1D0B}', 'K'),
    ('\u{1D0C}', 'L'),
    ('\u{1D0D}', 'M'),
    ('\u{1D0E}', 'N'),
    ('\u{1D0F}', 'O'),
    ('\u{1D10}', 'O'),
    ('\u{1D11}', 'o'),
    ('\u{1D12}', 'o'),
    ('\u{1D13}', 'o'),
    ('\u{1D16}', 'o'),
    ('\u{1D17}', 'o'),
    ('\u{1D18}', 'P'),
    ('\u{1D19}', 'R'),
    ('\u{1D1A}', 'R'),
    ('\u{1D1B}', 'T'),
    ('\u{1D1C}', 'U'),
    ('\u{1D1D}', 'u'),
    ('\u{1D1E}', 'u'),
    ('\u{1D1F}', 'm'),
    ('\u{1D20}', 'V'),
    ('\u{1D21}', 'W'),
    ('\u{1D22}', 'Z'),
    ('\u{1D62}', 'i'),
    ('\u{1D63}', 'r'),
    ('\u{1D64}', 'u'),
    ('\u{1D65}', 'v'),
    ('\u{1E01}', 'a'),
    ('\u{1E03}', 'b'),
    ('\u{1E05}', 'b'),
    ('\u{1E07}', 'b'),
    ('\u{1E0B}', 'd'),
    ('\u{1E0D}', 'd'),
    ('\u{1E0F}', 'd'),
    ('\u{1E11}', 'd'),
    ('\u{1E13}', 'd'),
    ('\u{1E19}', 'e'),
    ('\u{1E1B}', 'e'),
    ('\u{1E1F}', 'f'),
    ('\u{1E21}', 'g'),
    ('\u{1E23}', 'h'),
    ('\u{1E25}', 'h'),
    ('\u{1E27}', 'h'),
    ('\u{1E29}', 'h'),
    ('\u{1E2B}', 'h'),
    ('\u{1E2D}', 'i'),
    ('\u{1E31}', 'k'),
    ('\u{1E33}', 'k'),
    ('\u{1E35}', 'k'),
    ('\u{1E37}', 'l'),
    ('\u{1E3B}', 'l'),
    ('\u{1E3D}', 'l'),
    ('\u{1E3F}', 'm'),
    ('\u{1E41}', 'm'),
    ('\u{1E43}', 'm'),
    ('\u{1E45}', 'n'),
    ('\u{1E47}', 'n'),
    ('\u{1E49}', 'n'),
    ('\u{1E4B}', 'n'),
    ('\u{1E55}', 'p'),
    ('\u{1E57}', 'p'),
    ('\u{1E59}', 'r'),
    ('\u{1E5B}', 'r'),
    ('\u{1E5F}', 'r'),
    ('\u{1E61}', 's'),
    ('\u{1E63}', 's'),
    ('\u{1E6B}', 't'),
    ('\u{1E6D}', 't'),
    ('\u{1E6F}', 't'),
    ('\u{1E71}', 't'),
    ('\u{1E73}', 'u'),
    ('\u{1E75}', 'u'),
    ('\u{1E77}', 'u'),
    ('\u{1E7D}', 'v'),
    ('\u{1E7F}', 'v'),
    ('\u{1E81}', 'w'),
    ('\u{1E83}', 'w'),
    ('\u{1E85}', 'w'),
    ('\u{1E87}', 'w'),
    ('\u{1E89}', 'w'),
    ('\u{1E8B}', 'x'),
    ('\u{1E8D}', 'x'),
    ('\u{1E8F}', 'y'),
    ('\u{1E91}', 'z'),
    ('\u{1E93}', 'z'),
    ('\u{1E95}', 'z'),
    ('\u{1E96}', 'h'),
    ('\u{1E97}', 't'),
    ('\u{1E98}', 'w'),
    ('\u{1E99}', 'y'),
    ('\u{1E9A}', 'a'),
    ('\u{1E9B}', 's'),
    ('\u{1EA1}', 'a'),
    ('\u{1EA3}', 'a'),
    ('\u{1EA4}', 'A'),
    ('\u{1EA5}', 'a'),
    ('\u{1EA6}', 'A'),
    ('\u{1EA7}', 'a'),
    ('\u{1EA8}', 'A'),
    ('\u{1EA9}', 'a'),
    ('\u{1EAA}', 'A'),
    ('\u{1EAB}', 'a'),
    ('\u{1EAC}', 'A'),
    ('\u{1EAD}', 'a'),
    ('\u{1EAE}', 'A'),
    ('\u{1EAF}', 'a'),
    ('\u{1EB0}', 'A'),
    ('\u{1EB1}', 'a'),
    ('\u{1EB2}', 'A'),
    ('\u{1EB3}', 'a'),
    ('\u{1EB4}', 'A'),
    ('\u{1EB5}', 'a'),
    ('\u{1EB6}', 'A'),
    ('\u{1EB7}', 'a'),
    ('\u{1EB9}', 'e'),
    ('\u{1EBB}', 'e'),
    ('\u{1EBD}', 'e'),
    ('\u{1EBE}', 'E'),
    ('\u{1EBF}', 'e'),
    ('\u{1EC0}', 'E'),
    ('\u{1EC1}', 'e'),
    ('\u{1EC2}', 'E'),
    ('\u{1EC3}', 'e'),
    ('\u{1EC4}', 'E'),
    ('\u{1EC5}', 'e'),
    ('\u{1EC6}', 'E'),
    ('\u{1EC7}', 'e'),
    ('\u{1EC9}', 'i'),
    ('\u{1ECB}', 'i'),
    ('\u{1ECD}', 'o'),
    ('\u{1ECF}', 'o'),
    ('\u{1ED0}', 'O'),
    ('\u{1ED1}', 'o'),
    ('\u{1ED2}', 'O'),
    ('\u{1ED3}', 'o'),
    ('\u{1ED4}', 'O'),
    ('\u{1ED5}', 'o'),
    ('\u{1ED6}', 'O'),
    ('\u{1ED7}', 'o'),
    ('\u{1ED8}', 'O'),
    ('\u{1ED9}', 'o'),
    ('\u{1EDA}', 'O'),
    ('\u{1EDB}', 'o'),
    ('\u{1EDC}', 'O'),
    ('\u{1EDD}', 'o'),
    ('\u{1EDE}', 'O'),
    ('\u{1EDF}', 'o'),
    ('\u{1EE0}', 'O'),
    ('\u{1EE1}', 'o'),
    ('\u{1EE2}', 'O'),
    ('\u{1EE3}', 'o'),
    ('\u{1EE5}', 'u'),
    ('\u{1EE7}', 'u'),
    ('\u{1EE8}', 'U'),
    ('\u{1EE9}', 'u'),
    ('\u{1EEA}', 'U'),
    ('\u{1EEB}', 'u'),
    ('\u{1EEC}', 'U'),
    ('\u{1EED}', 'u'),
    ('\u{1EEE}', 'U'),
    ('\u{1EEF}', 'u'),
    ('\u{1EF0}', 'U'),
    ('\u{1EF1}', 'u'),
    ('\u{1EF3}', 'y'),
    ('\u{1EF5}', 'y'),
    ('\u{1EF7}', 'y'),
    ('\u{1EF9}', 'y'),
];

const THIRD_BATCH: [(char, char); 10] = [
    ('\u{2071}', 'i'),
    ('\u{2095}', 'h'),
    ('\u{2096}', 'k'),
    ('\u{2097}', 'l'),
    ('\u{2098}', 'm'),
    ('\u{2099}', 'n'),
    ('\u{209A}', 'p'),
    ('\u{209B}', 's'),
    ('\u{209C}', 't'),
    ('\u{2184}', 'c'),
];

#[test]
fn normalize_first_batch() {
    for (raw, normalized) in FIRST_BATCH {
        assert_eq!(normalize(raw), normalized);
    }
}

#[test]
fn normalize_second_batch() {
    for (raw, normalized) in SECOND_BATCH {
        assert_eq!(normalize(raw), normalized);
    }
}

#[test]
fn normalize_third_batch() {
    for (raw, normalized) in THIRD_BATCH {
        assert_eq!(normalize(raw), normalized);
    }
}
