//! The checkpoint's language-prompt dictionary.
use vstd::prelude::*;

use super::encoder::ModelError;
use crate::text::str_equal;

verus! {

/// Every alias of `processor_config.json` with its prompt slot, in table order.
pub open spec fn prompt_table() -> Seq<(&'static str, usize)> {
    seq![
        ("af-ZA", 54usize),
        ("am-ET", 49usize),
        ("ar", 7usize),
        ("ar-AR", 7usize),
        ("auto", 101usize),
        ("ay-BO", 81usize),
        ("az-AZ", 66usize),
        ("bg", 30usize),
        ("bg-BG", 30usize),
        ("bn-IN", 36usize),
        ("cs", 22usize),
        ("cs-CZ", 22usize),
        ("da", 25usize),
        ("da-DK", 25usize),
        ("de", 9usize),
        ("de-DE", 9usize),
        ("el", 21usize),
        ("el-GR", 21usize),
        ("en", 0usize),
        ("en-GB", 1usize),
        ("en-US", 0usize),
        ("enGB", 1usize),
        ("es", 3usize),
        ("es-ES", 2usize),
        ("es-US", 3usize),
        ("esES", 2usize),
        ("et", 60usize),
        ("et-EE", 60usize),
        ("fa-IR", 38usize),
        ("fi", 26usize),
        ("fi-FI", 26usize),
        ("fr", 8usize),
        ("fr-CA", 100usize),
        ("fr-FR", 8usize),
        ("gn-PY", 82usize),
        ("gu-IN", 42usize),
        ("ha-NG", 50usize),
        ("haw-US", 97usize),
        ("he-IL", 64usize),
        ("hi", 6usize),
        ("hi-HI", 6usize),
        ("hi-IN", 6usize),
        ("hr", 29usize),
        ("hr-HR", 29usize),
        ("hu", 23usize),
        ("hu-HU", 23usize),
        ("hy-AM", 68usize),
        ("id-ID", 34usize),
        ("ig-NG", 53usize),
        ("it", 15usize),
        ("it-IT", 15usize),
        ("ja-JA", 10usize),
        ("ja-JP", 10usize),
        ("ka-GE", 67usize),
        ("km-KH", 47usize),
        ("kn-IN", 43usize),
        ("ko", 14usize),
        ("ko-KO", 14usize),
        ("ko-KR", 14usize),
        ("ku-TR", 65usize),
        ("ky-KG", 71usize),
        ("ln-CD", 58usize),
        ("lt", 31usize),
        ("lt-LT", 31usize),
        ("lv", 61usize),
        ("lv-LV", 61usize),
        ("mi-NZ", 96usize),
        ("ml-IN", 44usize),
        ("mr-IN", 41usize),
        ("ms-MY", 35usize),
        ("mt-MT", 102usize),
        ("nah-MX", 83usize),
        ("nb", 103usize),
        ("nb-NO", 103usize),
        ("ne-NP", 46usize),
        ("nl", 16usize),
        ("nl-NL", 16usize),
        ("nn", 104usize),
        ("nn-NO", 104usize),
        ("no", 27usize),
        ("no-NO", 27usize),
        ("ny-MW", 57usize),
        ("or-KE", 59usize),
        ("pl", 17usize),
        ("pl-PL", 17usize),
        ("pt", 13usize),
        ("pt-BR", 12usize),
        ("pt-PT", 13usize),
        ("qu-PE", 80usize),
        ("ro", 20usize),
        ("ro-RO", 20usize),
        ("ru", 11usize),
        ("ru-RU", 11usize),
        ("rw-RW", 55usize),
        ("si-LK", 45usize),
        ("sk", 28usize),
        ("sk-SK", 28usize),
        ("sl", 62usize),
        ("sl-SI", 62usize),
        ("sm-WS", 98usize),
        ("so-SO", 56usize),
        ("sv", 24usize),
        ("sv-SE", 24usize),
        ("sw-KE", 48usize),
        ("ta-IN", 39usize),
        ("te-IN", 40usize),
        ("tg-TJ", 70usize),
        ("th-TH", 32usize),
        ("to-TO", 99usize),
        ("tr", 18usize),
        ("tr-TR", 18usize),
        ("uk", 19usize),
        ("uk-UA", 19usize),
        ("ur-PK", 37usize),
        ("uz-UZ", 69usize),
        ("vi-VN", 33usize),
        ("yo-NG", 52usize),
        ("zh-CN", 4usize),
        ("zh-TW", 5usize),
        ("zh-ZH", 4usize),
        ("zu-ZA", 51usize),
    ]
}

/// The alias table as a vector.
fn prompt_dictionary() -> (v: Vec<(&'static str, usize)>)
    ensures
        v@ == prompt_table(),
{
    let v: Vec<(&'static str, usize)> = vec![
        ("af-ZA", 54),
        ("am-ET", 49),
        ("ar", 7),
        ("ar-AR", 7),
        ("auto", 101),
        ("ay-BO", 81),
        ("az-AZ", 66),
        ("bg", 30),
        ("bg-BG", 30),
        ("bn-IN", 36),
        ("cs", 22),
        ("cs-CZ", 22),
        ("da", 25),
        ("da-DK", 25),
        ("de", 9),
        ("de-DE", 9),
        ("el", 21),
        ("el-GR", 21),
        ("en", 0),
        ("en-GB", 1),
        ("en-US", 0),
        ("enGB", 1),
        ("es", 3),
        ("es-ES", 2),
        ("es-US", 3),
        ("esES", 2),
        ("et", 60),
        ("et-EE", 60),
        ("fa-IR", 38),
        ("fi", 26),
        ("fi-FI", 26),
        ("fr", 8),
        ("fr-CA", 100),
        ("fr-FR", 8),
        ("gn-PY", 82),
        ("gu-IN", 42),
        ("ha-NG", 50),
        ("haw-US", 97),
        ("he-IL", 64),
        ("hi", 6),
        ("hi-HI", 6),
        ("hi-IN", 6),
        ("hr", 29),
        ("hr-HR", 29),
        ("hu", 23),
        ("hu-HU", 23),
        ("hy-AM", 68),
        ("id-ID", 34),
        ("ig-NG", 53),
        ("it", 15),
        ("it-IT", 15),
        ("ja-JA", 10),
        ("ja-JP", 10),
        ("ka-GE", 67),
        ("km-KH", 47),
        ("kn-IN", 43),
        ("ko", 14),
        ("ko-KO", 14),
        ("ko-KR", 14),
        ("ku-TR", 65),
        ("ky-KG", 71),
        ("ln-CD", 58),
        ("lt", 31),
        ("lt-LT", 31),
        ("lv", 61),
        ("lv-LV", 61),
        ("mi-NZ", 96),
        ("ml-IN", 44),
        ("mr-IN", 41),
        ("ms-MY", 35),
        ("mt-MT", 102),
        ("nah-MX", 83),
        ("nb", 103),
        ("nb-NO", 103),
        ("ne-NP", 46),
        ("nl", 16),
        ("nl-NL", 16),
        ("nn", 104),
        ("nn-NO", 104),
        ("no", 27),
        ("no-NO", 27),
        ("ny-MW", 57),
        ("or-KE", 59),
        ("pl", 17),
        ("pl-PL", 17),
        ("pt", 13),
        ("pt-BR", 12),
        ("pt-PT", 13),
        ("qu-PE", 80),
        ("ro", 20),
        ("ro-RO", 20),
        ("ru", 11),
        ("ru-RU", 11),
        ("rw-RW", 55),
        ("si-LK", 45),
        ("sk", 28),
        ("sk-SK", 28),
        ("sl", 62),
        ("sl-SI", 62),
        ("sm-WS", 98),
        ("so-SO", 56),
        ("sv", 24),
        ("sv-SE", 24),
        ("sw-KE", 48),
        ("ta-IN", 39),
        ("te-IN", 40),
        ("tg-TJ", 70),
        ("th-TH", 32),
        ("to-TO", 99),
        ("tr", 18),
        ("tr-TR", 18),
        ("uk", 19),
        ("uk-UA", 19),
        ("ur-PK", 37),
        ("uz-UZ", 69),
        ("vi-VN", 33),
        ("yo-NG", 52),
        ("zh-CN", 4),
        ("zh-TW", 5),
        ("zh-ZH", 4),
        ("zu-ZA", 51),
    ];
    assert(v@ =~= prompt_table());
    v
}

/// Whether `code` is an alias of prompt slot `slot`, slot by slot: English
/// is slot 0 (`en`, `en-US`) and British English slot 1, Spain's Spanish
/// slot 2 and other Spanish slot 3, simplified Chinese slot 4 and
/// traditional (Taiwan) Chinese slot 5, automatic detection slot 101, and
/// so on for every language of the checkpoint.
pub open spec fn alias_of_slot(code: Seq<char>, slot: usize) -> bool {
    ||| slot == 0 && (code == "en"@ || code == "en-US"@)
    ||| slot == 1 && (code == "en-GB"@ || code == "enGB"@)
    ||| slot == 2 && (code == "es-ES"@ || code == "esES"@)
    ||| slot == 3 && (code == "es"@ || code == "es-US"@)
    ||| slot == 4 && (code == "zh-CN"@ || code == "zh-ZH"@)
    ||| slot == 5 && code == "zh-TW"@
    ||| slot == 6 && (code == "hi"@ || code == "hi-HI"@ || code == "hi-IN"@)
    ||| slot == 7 && (code == "ar"@ || code == "ar-AR"@)
    ||| slot == 8 && (code == "fr"@ || code == "fr-FR"@)
    ||| slot == 9 && (code == "de"@ || code == "de-DE"@)
    ||| slot == 10 && (code == "ja-JA"@ || code == "ja-JP"@)
    ||| slot == 11 && (code == "ru"@ || code == "ru-RU"@)
    ||| slot == 12 && code == "pt-BR"@
    ||| slot == 13 && (code == "pt"@ || code == "pt-PT"@)
    ||| slot == 14 && (code == "ko"@ || code == "ko-KO"@ || code == "ko-KR"@)
    ||| slot == 15 && (code == "it"@ || code == "it-IT"@)
    ||| slot == 16 && (code == "nl"@ || code == "nl-NL"@)
    ||| slot == 17 && (code == "pl"@ || code == "pl-PL"@)
    ||| slot == 18 && (code == "tr"@ || code == "tr-TR"@)
    ||| slot == 19 && (code == "uk"@ || code == "uk-UA"@)
    ||| slot == 20 && (code == "ro"@ || code == "ro-RO"@)
    ||| slot == 21 && (code == "el"@ || code == "el-GR"@)
    ||| slot == 22 && (code == "cs"@ || code == "cs-CZ"@)
    ||| slot == 23 && (code == "hu"@ || code == "hu-HU"@)
    ||| slot == 24 && (code == "sv"@ || code == "sv-SE"@)
    ||| slot == 25 && (code == "da"@ || code == "da-DK"@)
    ||| slot == 26 && (code == "fi"@ || code == "fi-FI"@)
    ||| slot == 27 && (code == "no"@ || code == "no-NO"@)
    ||| slot == 28 && (code == "sk"@ || code == "sk-SK"@)
    ||| slot == 29 && (code == "hr"@ || code == "hr-HR"@)
    ||| slot == 30 && (code == "bg"@ || code == "bg-BG"@)
    ||| slot == 31 && (code == "lt"@ || code == "lt-LT"@)
    ||| slot == 32 && code == "th-TH"@
    ||| slot == 33 && code == "vi-VN"@
    ||| slot == 34 && code == "id-ID"@
    ||| slot == 35 && code == "ms-MY"@
    ||| slot == 36 && code == "bn-IN"@
    ||| slot == 37 && code == "ur-PK"@
    ||| slot == 38 && code == "fa-IR"@
    ||| slot == 39 && code == "ta-IN"@
    ||| slot == 40 && code == "te-IN"@
    ||| slot == 41 && code == "mr-IN"@
    ||| slot == 42 && code == "gu-IN"@
    ||| slot == 43 && code == "kn-IN"@
    ||| slot == 44 && code == "ml-IN"@
    ||| slot == 45 && code == "si-LK"@
    ||| slot == 46 && code == "ne-NP"@
    ||| slot == 47 && code == "km-KH"@
    ||| slot == 48 && code == "sw-KE"@
    ||| slot == 49 && code == "am-ET"@
    ||| slot == 50 && code == "ha-NG"@
    ||| slot == 51 && code == "zu-ZA"@
    ||| slot == 52 && code == "yo-NG"@
    ||| slot == 53 && code == "ig-NG"@
    ||| slot == 54 && code == "af-ZA"@
    ||| slot == 55 && code == "rw-RW"@
    ||| slot == 56 && code == "so-SO"@
    ||| slot == 57 && code == "ny-MW"@
    ||| slot == 58 && code == "ln-CD"@
    ||| slot == 59 && code == "or-KE"@
    ||| slot == 60 && (code == "et"@ || code == "et-EE"@)
    ||| slot == 61 && (code == "lv"@ || code == "lv-LV"@)
    ||| slot == 62 && (code == "sl"@ || code == "sl-SI"@)
    ||| slot == 64 && code == "he-IL"@
    ||| slot == 65 && code == "ku-TR"@
    ||| slot == 66 && code == "az-AZ"@
    ||| slot == 67 && code == "ka-GE"@
    ||| slot == 68 && code == "hy-AM"@
    ||| slot == 69 && code == "uz-UZ"@
    ||| slot == 70 && code == "tg-TJ"@
    ||| slot == 71 && code == "ky-KG"@
    ||| slot == 80 && code == "qu-PE"@
    ||| slot == 81 && code == "ay-BO"@
    ||| slot == 82 && code == "gn-PY"@
    ||| slot == 83 && code == "nah-MX"@
    ||| slot == 96 && code == "mi-NZ"@
    ||| slot == 97 && code == "haw-US"@
    ||| slot == 98 && code == "sm-WS"@
    ||| slot == 99 && code == "to-TO"@
    ||| slot == 100 && code == "fr-CA"@
    ||| slot == 101 && code == "auto"@
    ||| slot == 102 && code == "mt-MT"@
    ||| slot == 103 && (code == "nb"@ || code == "nb-NO"@)
    ||| slot == 104 && (code == "nn"@ || code == "nn-NO"@)
}

proof fn lemma_slots_from_0()
    ensures
        forall|k: int| 0 <= k < 20 ==> #[trigger] alias_of_slot(prompt_table()[k].0@, prompt_table()[k].1),
        prompt_table()[0].0@ == "af-ZA"@ && prompt_table()[0].1 == 54,
        prompt_table()[1].0@ == "am-ET"@ && prompt_table()[1].1 == 49,
        prompt_table()[2].0@ == "ar"@ && prompt_table()[2].1 == 7,
        prompt_table()[3].0@ == "ar-AR"@ && prompt_table()[3].1 == 7,
        prompt_table()[4].0@ == "auto"@ && prompt_table()[4].1 == 101,
        prompt_table()[5].0@ == "ay-BO"@ && prompt_table()[5].1 == 81,
        prompt_table()[6].0@ == "az-AZ"@ && prompt_table()[6].1 == 66,
        prompt_table()[7].0@ == "bg"@ && prompt_table()[7].1 == 30,
        prompt_table()[8].0@ == "bg-BG"@ && prompt_table()[8].1 == 30,
        prompt_table()[9].0@ == "bn-IN"@ && prompt_table()[9].1 == 36,
        prompt_table()[10].0@ == "cs"@ && prompt_table()[10].1 == 22,
        prompt_table()[11].0@ == "cs-CZ"@ && prompt_table()[11].1 == 22,
        prompt_table()[12].0@ == "da"@ && prompt_table()[12].1 == 25,
        prompt_table()[13].0@ == "da-DK"@ && prompt_table()[13].1 == 25,
        prompt_table()[14].0@ == "de"@ && prompt_table()[14].1 == 9,
        prompt_table()[15].0@ == "de-DE"@ && prompt_table()[15].1 == 9,
        prompt_table()[16].0@ == "el"@ && prompt_table()[16].1 == 21,
        prompt_table()[17].0@ == "el-GR"@ && prompt_table()[17].1 == 21,
        prompt_table()[18].0@ == "en"@ && prompt_table()[18].1 == 0,
        prompt_table()[19].0@ == "en-GB"@ && prompt_table()[19].1 == 1,
{
    let t = prompt_table();
    assert(t[0].0@ == "af-ZA"@ && t[0].1 == 54);
    assert(alias_of_slot(t[0].0@, t[0].1));
    assert(t[1].0@ == "am-ET"@ && t[1].1 == 49);
    assert(alias_of_slot(t[1].0@, t[1].1));
    assert(t[2].0@ == "ar"@ && t[2].1 == 7);
    assert(alias_of_slot(t[2].0@, t[2].1));
    assert(t[3].0@ == "ar-AR"@ && t[3].1 == 7);
    assert(alias_of_slot(t[3].0@, t[3].1));
    assert(t[4].0@ == "auto"@ && t[4].1 == 101);
    assert(alias_of_slot(t[4].0@, t[4].1));
    assert(t[5].0@ == "ay-BO"@ && t[5].1 == 81);
    assert(alias_of_slot(t[5].0@, t[5].1));
    assert(t[6].0@ == "az-AZ"@ && t[6].1 == 66);
    assert(alias_of_slot(t[6].0@, t[6].1));
    assert(t[7].0@ == "bg"@ && t[7].1 == 30);
    assert(alias_of_slot(t[7].0@, t[7].1));
    assert(t[8].0@ == "bg-BG"@ && t[8].1 == 30);
    assert(alias_of_slot(t[8].0@, t[8].1));
    assert(t[9].0@ == "bn-IN"@ && t[9].1 == 36);
    assert(alias_of_slot(t[9].0@, t[9].1));
    assert(t[10].0@ == "cs"@ && t[10].1 == 22);
    assert(alias_of_slot(t[10].0@, t[10].1));
    assert(t[11].0@ == "cs-CZ"@ && t[11].1 == 22);
    assert(alias_of_slot(t[11].0@, t[11].1));
    assert(t[12].0@ == "da"@ && t[12].1 == 25);
    assert(alias_of_slot(t[12].0@, t[12].1));
    assert(t[13].0@ == "da-DK"@ && t[13].1 == 25);
    assert(alias_of_slot(t[13].0@, t[13].1));
    assert(t[14].0@ == "de"@ && t[14].1 == 9);
    assert(alias_of_slot(t[14].0@, t[14].1));
    assert(t[15].0@ == "de-DE"@ && t[15].1 == 9);
    assert(alias_of_slot(t[15].0@, t[15].1));
    assert(t[16].0@ == "el"@ && t[16].1 == 21);
    assert(alias_of_slot(t[16].0@, t[16].1));
    assert(t[17].0@ == "el-GR"@ && t[17].1 == 21);
    assert(alias_of_slot(t[17].0@, t[17].1));
    assert(t[18].0@ == "en"@ && t[18].1 == 0);
    assert(alias_of_slot(t[18].0@, t[18].1));
    assert(t[19].0@ == "en-GB"@ && t[19].1 == 1);
    assert(alias_of_slot(t[19].0@, t[19].1));
}

proof fn lemma_slots_from_20()
    ensures
        forall|k: int| 20 <= k < 40 ==> #[trigger] alias_of_slot(prompt_table()[k].0@, prompt_table()[k].1),
        prompt_table()[20].0@ == "en-US"@ && prompt_table()[20].1 == 0,
        prompt_table()[21].0@ == "enGB"@ && prompt_table()[21].1 == 1,
        prompt_table()[22].0@ == "es"@ && prompt_table()[22].1 == 3,
        prompt_table()[23].0@ == "es-ES"@ && prompt_table()[23].1 == 2,
        prompt_table()[24].0@ == "es-US"@ && prompt_table()[24].1 == 3,
        prompt_table()[25].0@ == "esES"@ && prompt_table()[25].1 == 2,
        prompt_table()[26].0@ == "et"@ && prompt_table()[26].1 == 60,
        prompt_table()[27].0@ == "et-EE"@ && prompt_table()[27].1 == 60,
        prompt_table()[28].0@ == "fa-IR"@ && prompt_table()[28].1 == 38,
        prompt_table()[29].0@ == "fi"@ && prompt_table()[29].1 == 26,
        prompt_table()[30].0@ == "fi-FI"@ && prompt_table()[30].1 == 26,
        prompt_table()[31].0@ == "fr"@ && prompt_table()[31].1 == 8,
        prompt_table()[32].0@ == "fr-CA"@ && prompt_table()[32].1 == 100,
        prompt_table()[33].0@ == "fr-FR"@ && prompt_table()[33].1 == 8,
        prompt_table()[34].0@ == "gn-PY"@ && prompt_table()[34].1 == 82,
        prompt_table()[35].0@ == "gu-IN"@ && prompt_table()[35].1 == 42,
        prompt_table()[36].0@ == "ha-NG"@ && prompt_table()[36].1 == 50,
        prompt_table()[37].0@ == "haw-US"@ && prompt_table()[37].1 == 97,
        prompt_table()[38].0@ == "he-IL"@ && prompt_table()[38].1 == 64,
        prompt_table()[39].0@ == "hi"@ && prompt_table()[39].1 == 6,
{
    let t = prompt_table();
    assert(t[20].0@ == "en-US"@ && t[20].1 == 0);
    assert(alias_of_slot(t[20].0@, t[20].1));
    assert(t[21].0@ == "enGB"@ && t[21].1 == 1);
    assert(alias_of_slot(t[21].0@, t[21].1));
    assert(t[22].0@ == "es"@ && t[22].1 == 3);
    assert(alias_of_slot(t[22].0@, t[22].1));
    assert(t[23].0@ == "es-ES"@ && t[23].1 == 2);
    assert(alias_of_slot(t[23].0@, t[23].1));
    assert(t[24].0@ == "es-US"@ && t[24].1 == 3);
    assert(alias_of_slot(t[24].0@, t[24].1));
    assert(t[25].0@ == "esES"@ && t[25].1 == 2);
    assert(alias_of_slot(t[25].0@, t[25].1));
    assert(t[26].0@ == "et"@ && t[26].1 == 60);
    assert(alias_of_slot(t[26].0@, t[26].1));
    assert(t[27].0@ == "et-EE"@ && t[27].1 == 60);
    assert(alias_of_slot(t[27].0@, t[27].1));
    assert(t[28].0@ == "fa-IR"@ && t[28].1 == 38);
    assert(alias_of_slot(t[28].0@, t[28].1));
    assert(t[29].0@ == "fi"@ && t[29].1 == 26);
    assert(alias_of_slot(t[29].0@, t[29].1));
    assert(t[30].0@ == "fi-FI"@ && t[30].1 == 26);
    assert(alias_of_slot(t[30].0@, t[30].1));
    assert(t[31].0@ == "fr"@ && t[31].1 == 8);
    assert(alias_of_slot(t[31].0@, t[31].1));
    assert(t[32].0@ == "fr-CA"@ && t[32].1 == 100);
    assert(alias_of_slot(t[32].0@, t[32].1));
    assert(t[33].0@ == "fr-FR"@ && t[33].1 == 8);
    assert(alias_of_slot(t[33].0@, t[33].1));
    assert(t[34].0@ == "gn-PY"@ && t[34].1 == 82);
    assert(alias_of_slot(t[34].0@, t[34].1));
    assert(t[35].0@ == "gu-IN"@ && t[35].1 == 42);
    assert(alias_of_slot(t[35].0@, t[35].1));
    assert(t[36].0@ == "ha-NG"@ && t[36].1 == 50);
    assert(alias_of_slot(t[36].0@, t[36].1));
    assert(t[37].0@ == "haw-US"@ && t[37].1 == 97);
    assert(alias_of_slot(t[37].0@, t[37].1));
    assert(t[38].0@ == "he-IL"@ && t[38].1 == 64);
    assert(alias_of_slot(t[38].0@, t[38].1));
    assert(t[39].0@ == "hi"@ && t[39].1 == 6);
    assert(alias_of_slot(t[39].0@, t[39].1));
}

proof fn lemma_slots_from_40()
    ensures
        forall|k: int| 40 <= k < 60 ==> #[trigger] alias_of_slot(prompt_table()[k].0@, prompt_table()[k].1),
        prompt_table()[40].0@ == "hi-HI"@ && prompt_table()[40].1 == 6,
        prompt_table()[41].0@ == "hi-IN"@ && prompt_table()[41].1 == 6,
        prompt_table()[42].0@ == "hr"@ && prompt_table()[42].1 == 29,
        prompt_table()[43].0@ == "hr-HR"@ && prompt_table()[43].1 == 29,
        prompt_table()[44].0@ == "hu"@ && prompt_table()[44].1 == 23,
        prompt_table()[45].0@ == "hu-HU"@ && prompt_table()[45].1 == 23,
        prompt_table()[46].0@ == "hy-AM"@ && prompt_table()[46].1 == 68,
        prompt_table()[47].0@ == "id-ID"@ && prompt_table()[47].1 == 34,
        prompt_table()[48].0@ == "ig-NG"@ && prompt_table()[48].1 == 53,
        prompt_table()[49].0@ == "it"@ && prompt_table()[49].1 == 15,
        prompt_table()[50].0@ == "it-IT"@ && prompt_table()[50].1 == 15,
        prompt_table()[51].0@ == "ja-JA"@ && prompt_table()[51].1 == 10,
        prompt_table()[52].0@ == "ja-JP"@ && prompt_table()[52].1 == 10,
        prompt_table()[53].0@ == "ka-GE"@ && prompt_table()[53].1 == 67,
        prompt_table()[54].0@ == "km-KH"@ && prompt_table()[54].1 == 47,
        prompt_table()[55].0@ == "kn-IN"@ && prompt_table()[55].1 == 43,
        prompt_table()[56].0@ == "ko"@ && prompt_table()[56].1 == 14,
        prompt_table()[57].0@ == "ko-KO"@ && prompt_table()[57].1 == 14,
        prompt_table()[58].0@ == "ko-KR"@ && prompt_table()[58].1 == 14,
        prompt_table()[59].0@ == "ku-TR"@ && prompt_table()[59].1 == 65,
{
    let t = prompt_table();
    assert(t[40].0@ == "hi-HI"@ && t[40].1 == 6);
    assert(alias_of_slot(t[40].0@, t[40].1));
    assert(t[41].0@ == "hi-IN"@ && t[41].1 == 6);
    assert(alias_of_slot(t[41].0@, t[41].1));
    assert(t[42].0@ == "hr"@ && t[42].1 == 29);
    assert(alias_of_slot(t[42].0@, t[42].1));
    assert(t[43].0@ == "hr-HR"@ && t[43].1 == 29);
    assert(alias_of_slot(t[43].0@, t[43].1));
    assert(t[44].0@ == "hu"@ && t[44].1 == 23);
    assert(alias_of_slot(t[44].0@, t[44].1));
    assert(t[45].0@ == "hu-HU"@ && t[45].1 == 23);
    assert(alias_of_slot(t[45].0@, t[45].1));
    assert(t[46].0@ == "hy-AM"@ && t[46].1 == 68);
    assert(alias_of_slot(t[46].0@, t[46].1));
    assert(t[47].0@ == "id-ID"@ && t[47].1 == 34);
    assert(alias_of_slot(t[47].0@, t[47].1));
    assert(t[48].0@ == "ig-NG"@ && t[48].1 == 53);
    assert(alias_of_slot(t[48].0@, t[48].1));
    assert(t[49].0@ == "it"@ && t[49].1 == 15);
    assert(alias_of_slot(t[49].0@, t[49].1));
    assert(t[50].0@ == "it-IT"@ && t[50].1 == 15);
    assert(alias_of_slot(t[50].0@, t[50].1));
    assert(t[51].0@ == "ja-JA"@ && t[51].1 == 10);
    assert(alias_of_slot(t[51].0@, t[51].1));
    assert(t[52].0@ == "ja-JP"@ && t[52].1 == 10);
    assert(alias_of_slot(t[52].0@, t[52].1));
    assert(t[53].0@ == "ka-GE"@ && t[53].1 == 67);
    assert(alias_of_slot(t[53].0@, t[53].1));
    assert(t[54].0@ == "km-KH"@ && t[54].1 == 47);
    assert(alias_of_slot(t[54].0@, t[54].1));
    assert(t[55].0@ == "kn-IN"@ && t[55].1 == 43);
    assert(alias_of_slot(t[55].0@, t[55].1));
    assert(t[56].0@ == "ko"@ && t[56].1 == 14);
    assert(alias_of_slot(t[56].0@, t[56].1));
    assert(t[57].0@ == "ko-KO"@ && t[57].1 == 14);
    assert(alias_of_slot(t[57].0@, t[57].1));
    assert(t[58].0@ == "ko-KR"@ && t[58].1 == 14);
    assert(alias_of_slot(t[58].0@, t[58].1));
    assert(t[59].0@ == "ku-TR"@ && t[59].1 == 65);
    assert(alias_of_slot(t[59].0@, t[59].1));
}

proof fn lemma_slots_from_60()
    ensures
        forall|k: int| 60 <= k < 80 ==> #[trigger] alias_of_slot(prompt_table()[k].0@, prompt_table()[k].1),
        prompt_table()[60].0@ == "ky-KG"@ && prompt_table()[60].1 == 71,
        prompt_table()[61].0@ == "ln-CD"@ && prompt_table()[61].1 == 58,
        prompt_table()[62].0@ == "lt"@ && prompt_table()[62].1 == 31,
        prompt_table()[63].0@ == "lt-LT"@ && prompt_table()[63].1 == 31,
        prompt_table()[64].0@ == "lv"@ && prompt_table()[64].1 == 61,
        prompt_table()[65].0@ == "lv-LV"@ && prompt_table()[65].1 == 61,
        prompt_table()[66].0@ == "mi-NZ"@ && prompt_table()[66].1 == 96,
        prompt_table()[67].0@ == "ml-IN"@ && prompt_table()[67].1 == 44,
        prompt_table()[68].0@ == "mr-IN"@ && prompt_table()[68].1 == 41,
        prompt_table()[69].0@ == "ms-MY"@ && prompt_table()[69].1 == 35,
        prompt_table()[70].0@ == "mt-MT"@ && prompt_table()[70].1 == 102,
        prompt_table()[71].0@ == "nah-MX"@ && prompt_table()[71].1 == 83,
        prompt_table()[72].0@ == "nb"@ && prompt_table()[72].1 == 103,
        prompt_table()[73].0@ == "nb-NO"@ && prompt_table()[73].1 == 103,
        prompt_table()[74].0@ == "ne-NP"@ && prompt_table()[74].1 == 46,
        prompt_table()[75].0@ == "nl"@ && prompt_table()[75].1 == 16,
        prompt_table()[76].0@ == "nl-NL"@ && prompt_table()[76].1 == 16,
        prompt_table()[77].0@ == "nn"@ && prompt_table()[77].1 == 104,
        prompt_table()[78].0@ == "nn-NO"@ && prompt_table()[78].1 == 104,
        prompt_table()[79].0@ == "no"@ && prompt_table()[79].1 == 27,
{
    let t = prompt_table();
    assert(t[60].0@ == "ky-KG"@ && t[60].1 == 71);
    assert(alias_of_slot(t[60].0@, t[60].1));
    assert(t[61].0@ == "ln-CD"@ && t[61].1 == 58);
    assert(alias_of_slot(t[61].0@, t[61].1));
    assert(t[62].0@ == "lt"@ && t[62].1 == 31);
    assert(alias_of_slot(t[62].0@, t[62].1));
    assert(t[63].0@ == "lt-LT"@ && t[63].1 == 31);
    assert(alias_of_slot(t[63].0@, t[63].1));
    assert(t[64].0@ == "lv"@ && t[64].1 == 61);
    assert(alias_of_slot(t[64].0@, t[64].1));
    assert(t[65].0@ == "lv-LV"@ && t[65].1 == 61);
    assert(alias_of_slot(t[65].0@, t[65].1));
    assert(t[66].0@ == "mi-NZ"@ && t[66].1 == 96);
    assert(alias_of_slot(t[66].0@, t[66].1));
    assert(t[67].0@ == "ml-IN"@ && t[67].1 == 44);
    assert(alias_of_slot(t[67].0@, t[67].1));
    assert(t[68].0@ == "mr-IN"@ && t[68].1 == 41);
    assert(alias_of_slot(t[68].0@, t[68].1));
    assert(t[69].0@ == "ms-MY"@ && t[69].1 == 35);
    assert(alias_of_slot(t[69].0@, t[69].1));
    assert(t[70].0@ == "mt-MT"@ && t[70].1 == 102);
    assert(alias_of_slot(t[70].0@, t[70].1));
    assert(t[71].0@ == "nah-MX"@ && t[71].1 == 83);
    assert(alias_of_slot(t[71].0@, t[71].1));
    assert(t[72].0@ == "nb"@ && t[72].1 == 103);
    assert(alias_of_slot(t[72].0@, t[72].1));
    assert(t[73].0@ == "nb-NO"@ && t[73].1 == 103);
    assert(alias_of_slot(t[73].0@, t[73].1));
    assert(t[74].0@ == "ne-NP"@ && t[74].1 == 46);
    assert(alias_of_slot(t[74].0@, t[74].1));
    assert(t[75].0@ == "nl"@ && t[75].1 == 16);
    assert(alias_of_slot(t[75].0@, t[75].1));
    assert(t[76].0@ == "nl-NL"@ && t[76].1 == 16);
    assert(alias_of_slot(t[76].0@, t[76].1));
    assert(t[77].0@ == "nn"@ && t[77].1 == 104);
    assert(alias_of_slot(t[77].0@, t[77].1));
    assert(t[78].0@ == "nn-NO"@ && t[78].1 == 104);
    assert(alias_of_slot(t[78].0@, t[78].1));
    assert(t[79].0@ == "no"@ && t[79].1 == 27);
    assert(alias_of_slot(t[79].0@, t[79].1));
}

proof fn lemma_slots_from_80()
    ensures
        forall|k: int| 80 <= k < 100 ==> #[trigger] alias_of_slot(prompt_table()[k].0@, prompt_table()[k].1),
        prompt_table()[80].0@ == "no-NO"@ && prompt_table()[80].1 == 27,
        prompt_table()[81].0@ == "ny-MW"@ && prompt_table()[81].1 == 57,
        prompt_table()[82].0@ == "or-KE"@ && prompt_table()[82].1 == 59,
        prompt_table()[83].0@ == "pl"@ && prompt_table()[83].1 == 17,
        prompt_table()[84].0@ == "pl-PL"@ && prompt_table()[84].1 == 17,
        prompt_table()[85].0@ == "pt"@ && prompt_table()[85].1 == 13,
        prompt_table()[86].0@ == "pt-BR"@ && prompt_table()[86].1 == 12,
        prompt_table()[87].0@ == "pt-PT"@ && prompt_table()[87].1 == 13,
        prompt_table()[88].0@ == "qu-PE"@ && prompt_table()[88].1 == 80,
        prompt_table()[89].0@ == "ro"@ && prompt_table()[89].1 == 20,
        prompt_table()[90].0@ == "ro-RO"@ && prompt_table()[90].1 == 20,
        prompt_table()[91].0@ == "ru"@ && prompt_table()[91].1 == 11,
        prompt_table()[92].0@ == "ru-RU"@ && prompt_table()[92].1 == 11,
        prompt_table()[93].0@ == "rw-RW"@ && prompt_table()[93].1 == 55,
        prompt_table()[94].0@ == "si-LK"@ && prompt_table()[94].1 == 45,
        prompt_table()[95].0@ == "sk"@ && prompt_table()[95].1 == 28,
        prompt_table()[96].0@ == "sk-SK"@ && prompt_table()[96].1 == 28,
        prompt_table()[97].0@ == "sl"@ && prompt_table()[97].1 == 62,
        prompt_table()[98].0@ == "sl-SI"@ && prompt_table()[98].1 == 62,
        prompt_table()[99].0@ == "sm-WS"@ && prompt_table()[99].1 == 98,
{
    let t = prompt_table();
    assert(t[80].0@ == "no-NO"@ && t[80].1 == 27);
    assert(alias_of_slot(t[80].0@, t[80].1));
    assert(t[81].0@ == "ny-MW"@ && t[81].1 == 57);
    assert(alias_of_slot(t[81].0@, t[81].1));
    assert(t[82].0@ == "or-KE"@ && t[82].1 == 59);
    assert(alias_of_slot(t[82].0@, t[82].1));
    assert(t[83].0@ == "pl"@ && t[83].1 == 17);
    assert(alias_of_slot(t[83].0@, t[83].1));
    assert(t[84].0@ == "pl-PL"@ && t[84].1 == 17);
    assert(alias_of_slot(t[84].0@, t[84].1));
    assert(t[85].0@ == "pt"@ && t[85].1 == 13);
    assert(alias_of_slot(t[85].0@, t[85].1));
    assert(t[86].0@ == "pt-BR"@ && t[86].1 == 12);
    assert(alias_of_slot(t[86].0@, t[86].1));
    assert(t[87].0@ == "pt-PT"@ && t[87].1 == 13);
    assert(alias_of_slot(t[87].0@, t[87].1));
    assert(t[88].0@ == "qu-PE"@ && t[88].1 == 80);
    assert(alias_of_slot(t[88].0@, t[88].1));
    assert(t[89].0@ == "ro"@ && t[89].1 == 20);
    assert(alias_of_slot(t[89].0@, t[89].1));
    assert(t[90].0@ == "ro-RO"@ && t[90].1 == 20);
    assert(alias_of_slot(t[90].0@, t[90].1));
    assert(t[91].0@ == "ru"@ && t[91].1 == 11);
    assert(alias_of_slot(t[91].0@, t[91].1));
    assert(t[92].0@ == "ru-RU"@ && t[92].1 == 11);
    assert(alias_of_slot(t[92].0@, t[92].1));
    assert(t[93].0@ == "rw-RW"@ && t[93].1 == 55);
    assert(alias_of_slot(t[93].0@, t[93].1));
    assert(t[94].0@ == "si-LK"@ && t[94].1 == 45);
    assert(alias_of_slot(t[94].0@, t[94].1));
    assert(t[95].0@ == "sk"@ && t[95].1 == 28);
    assert(alias_of_slot(t[95].0@, t[95].1));
    assert(t[96].0@ == "sk-SK"@ && t[96].1 == 28);
    assert(alias_of_slot(t[96].0@, t[96].1));
    assert(t[97].0@ == "sl"@ && t[97].1 == 62);
    assert(alias_of_slot(t[97].0@, t[97].1));
    assert(t[98].0@ == "sl-SI"@ && t[98].1 == 62);
    assert(alias_of_slot(t[98].0@, t[98].1));
    assert(t[99].0@ == "sm-WS"@ && t[99].1 == 98);
    assert(alias_of_slot(t[99].0@, t[99].1));
}

proof fn lemma_slots_from_100()
    ensures
        forall|k: int| 100 <= k < 120 ==> #[trigger] alias_of_slot(prompt_table()[k].0@, prompt_table()[k].1),
        prompt_table()[100].0@ == "so-SO"@ && prompt_table()[100].1 == 56,
        prompt_table()[101].0@ == "sv"@ && prompt_table()[101].1 == 24,
        prompt_table()[102].0@ == "sv-SE"@ && prompt_table()[102].1 == 24,
        prompt_table()[103].0@ == "sw-KE"@ && prompt_table()[103].1 == 48,
        prompt_table()[104].0@ == "ta-IN"@ && prompt_table()[104].1 == 39,
        prompt_table()[105].0@ == "te-IN"@ && prompt_table()[105].1 == 40,
        prompt_table()[106].0@ == "tg-TJ"@ && prompt_table()[106].1 == 70,
        prompt_table()[107].0@ == "th-TH"@ && prompt_table()[107].1 == 32,
        prompt_table()[108].0@ == "to-TO"@ && prompt_table()[108].1 == 99,
        prompt_table()[109].0@ == "tr"@ && prompt_table()[109].1 == 18,
        prompt_table()[110].0@ == "tr-TR"@ && prompt_table()[110].1 == 18,
        prompt_table()[111].0@ == "uk"@ && prompt_table()[111].1 == 19,
        prompt_table()[112].0@ == "uk-UA"@ && prompt_table()[112].1 == 19,
        prompt_table()[113].0@ == "ur-PK"@ && prompt_table()[113].1 == 37,
        prompt_table()[114].0@ == "uz-UZ"@ && prompt_table()[114].1 == 69,
        prompt_table()[115].0@ == "vi-VN"@ && prompt_table()[115].1 == 33,
        prompt_table()[116].0@ == "yo-NG"@ && prompt_table()[116].1 == 52,
        prompt_table()[117].0@ == "zh-CN"@ && prompt_table()[117].1 == 4,
        prompt_table()[118].0@ == "zh-TW"@ && prompt_table()[118].1 == 5,
        prompt_table()[119].0@ == "zh-ZH"@ && prompt_table()[119].1 == 4,
{
    let t = prompt_table();
    assert(t[100].0@ == "so-SO"@ && t[100].1 == 56);
    assert(alias_of_slot(t[100].0@, t[100].1));
    assert(t[101].0@ == "sv"@ && t[101].1 == 24);
    assert(alias_of_slot(t[101].0@, t[101].1));
    assert(t[102].0@ == "sv-SE"@ && t[102].1 == 24);
    assert(alias_of_slot(t[102].0@, t[102].1));
    assert(t[103].0@ == "sw-KE"@ && t[103].1 == 48);
    assert(alias_of_slot(t[103].0@, t[103].1));
    assert(t[104].0@ == "ta-IN"@ && t[104].1 == 39);
    assert(alias_of_slot(t[104].0@, t[104].1));
    assert(t[105].0@ == "te-IN"@ && t[105].1 == 40);
    assert(alias_of_slot(t[105].0@, t[105].1));
    assert(t[106].0@ == "tg-TJ"@ && t[106].1 == 70);
    assert(alias_of_slot(t[106].0@, t[106].1));
    assert(t[107].0@ == "th-TH"@ && t[107].1 == 32);
    assert(alias_of_slot(t[107].0@, t[107].1));
    assert(t[108].0@ == "to-TO"@ && t[108].1 == 99);
    assert(alias_of_slot(t[108].0@, t[108].1));
    assert(t[109].0@ == "tr"@ && t[109].1 == 18);
    assert(alias_of_slot(t[109].0@, t[109].1));
    assert(t[110].0@ == "tr-TR"@ && t[110].1 == 18);
    assert(alias_of_slot(t[110].0@, t[110].1));
    assert(t[111].0@ == "uk"@ && t[111].1 == 19);
    assert(alias_of_slot(t[111].0@, t[111].1));
    assert(t[112].0@ == "uk-UA"@ && t[112].1 == 19);
    assert(alias_of_slot(t[112].0@, t[112].1));
    assert(t[113].0@ == "ur-PK"@ && t[113].1 == 37);
    assert(alias_of_slot(t[113].0@, t[113].1));
    assert(t[114].0@ == "uz-UZ"@ && t[114].1 == 69);
    assert(alias_of_slot(t[114].0@, t[114].1));
    assert(t[115].0@ == "vi-VN"@ && t[115].1 == 33);
    assert(alias_of_slot(t[115].0@, t[115].1));
    assert(t[116].0@ == "yo-NG"@ && t[116].1 == 52);
    assert(alias_of_slot(t[116].0@, t[116].1));
    assert(t[117].0@ == "zh-CN"@ && t[117].1 == 4);
    assert(alias_of_slot(t[117].0@, t[117].1));
    assert(t[118].0@ == "zh-TW"@ && t[118].1 == 5);
    assert(alias_of_slot(t[118].0@, t[118].1));
    assert(t[119].0@ == "zh-ZH"@ && t[119].1 == 4);
    assert(alias_of_slot(t[119].0@, t[119].1));
}

proof fn lemma_slots_from_120()
    ensures
        forall|k: int| 120 <= k < 121 ==> #[trigger] alias_of_slot(prompt_table()[k].0@, prompt_table()[k].1),
        prompt_table()[120].0@ == "zu-ZA"@ && prompt_table()[120].1 == 51,
{
    let t = prompt_table();
    assert(t[120].0@ == "zu-ZA"@ && t[120].1 == 51);
    assert(alias_of_slot(t[120].0@, t[120].1));
}

/// The prompt table pairs each alias with exactly the slot that
/// `alias_of_slot` gives it, and lists every alias that it names.
pub proof fn lemma_prompt_slots()
    ensures
        forall|k: int| 0 <= k < prompt_table().len() ==> #[trigger] alias_of_slot(prompt_table()[k].0@, prompt_table()[k].1),
        forall|code: Seq<char>, slot: usize| #[trigger] alias_of_slot(code, slot) ==> exists|k: int|
            0 <= k < prompt_table().len() && #[trigger] prompt_table()[k].0@ == code && prompt_table()[k].1 == slot,
{
    lemma_slots_from_0();
    lemma_slots_from_20();
    lemma_slots_from_40();
    lemma_slots_from_60();
    lemma_slots_from_80();
    lemma_slots_from_100();
    lemma_slots_from_120();
    assert(prompt_table().len() == 121);
    assert forall|code: Seq<char>, slot: usize| #[trigger] alias_of_slot(code, slot) implies exists|k: int|
        0 <= k < prompt_table().len() && #[trigger] prompt_table()[k].0@ == code && prompt_table()[k].1 == slot by {
        if slot == 54 && code == "af-ZA"@ {
            assert(prompt_table()[0].0@ == code && prompt_table()[0].1 == slot);
        } else if slot == 49 && code == "am-ET"@ {
            assert(prompt_table()[1].0@ == code && prompt_table()[1].1 == slot);
        } else if slot == 7 && code == "ar"@ {
            assert(prompt_table()[2].0@ == code && prompt_table()[2].1 == slot);
        } else if slot == 7 && code == "ar-AR"@ {
            assert(prompt_table()[3].0@ == code && prompt_table()[3].1 == slot);
        } else if slot == 101 && code == "auto"@ {
            assert(prompt_table()[4].0@ == code && prompt_table()[4].1 == slot);
        } else if slot == 81 && code == "ay-BO"@ {
            assert(prompt_table()[5].0@ == code && prompt_table()[5].1 == slot);
        } else if slot == 66 && code == "az-AZ"@ {
            assert(prompt_table()[6].0@ == code && prompt_table()[6].1 == slot);
        } else if slot == 30 && code == "bg"@ {
            assert(prompt_table()[7].0@ == code && prompt_table()[7].1 == slot);
        } else if slot == 30 && code == "bg-BG"@ {
            assert(prompt_table()[8].0@ == code && prompt_table()[8].1 == slot);
        } else if slot == 36 && code == "bn-IN"@ {
            assert(prompt_table()[9].0@ == code && prompt_table()[9].1 == slot);
        } else if slot == 22 && code == "cs"@ {
            assert(prompt_table()[10].0@ == code && prompt_table()[10].1 == slot);
        } else if slot == 22 && code == "cs-CZ"@ {
            assert(prompt_table()[11].0@ == code && prompt_table()[11].1 == slot);
        } else if slot == 25 && code == "da"@ {
            assert(prompt_table()[12].0@ == code && prompt_table()[12].1 == slot);
        } else if slot == 25 && code == "da-DK"@ {
            assert(prompt_table()[13].0@ == code && prompt_table()[13].1 == slot);
        } else if slot == 9 && code == "de"@ {
            assert(prompt_table()[14].0@ == code && prompt_table()[14].1 == slot);
        } else if slot == 9 && code == "de-DE"@ {
            assert(prompt_table()[15].0@ == code && prompt_table()[15].1 == slot);
        } else if slot == 21 && code == "el"@ {
            assert(prompt_table()[16].0@ == code && prompt_table()[16].1 == slot);
        } else if slot == 21 && code == "el-GR"@ {
            assert(prompt_table()[17].0@ == code && prompt_table()[17].1 == slot);
        } else if slot == 0 && code == "en"@ {
            assert(prompt_table()[18].0@ == code && prompt_table()[18].1 == slot);
        } else if slot == 1 && code == "en-GB"@ {
            assert(prompt_table()[19].0@ == code && prompt_table()[19].1 == slot);
        } else if slot == 0 && code == "en-US"@ {
            assert(prompt_table()[20].0@ == code && prompt_table()[20].1 == slot);
        } else if slot == 1 && code == "enGB"@ {
            assert(prompt_table()[21].0@ == code && prompt_table()[21].1 == slot);
        } else if slot == 3 && code == "es"@ {
            assert(prompt_table()[22].0@ == code && prompt_table()[22].1 == slot);
        } else if slot == 2 && code == "es-ES"@ {
            assert(prompt_table()[23].0@ == code && prompt_table()[23].1 == slot);
        } else if slot == 3 && code == "es-US"@ {
            assert(prompt_table()[24].0@ == code && prompt_table()[24].1 == slot);
        } else if slot == 2 && code == "esES"@ {
            assert(prompt_table()[25].0@ == code && prompt_table()[25].1 == slot);
        } else if slot == 60 && code == "et"@ {
            assert(prompt_table()[26].0@ == code && prompt_table()[26].1 == slot);
        } else if slot == 60 && code == "et-EE"@ {
            assert(prompt_table()[27].0@ == code && prompt_table()[27].1 == slot);
        } else if slot == 38 && code == "fa-IR"@ {
            assert(prompt_table()[28].0@ == code && prompt_table()[28].1 == slot);
        } else if slot == 26 && code == "fi"@ {
            assert(prompt_table()[29].0@ == code && prompt_table()[29].1 == slot);
        } else if slot == 26 && code == "fi-FI"@ {
            assert(prompt_table()[30].0@ == code && prompt_table()[30].1 == slot);
        } else if slot == 8 && code == "fr"@ {
            assert(prompt_table()[31].0@ == code && prompt_table()[31].1 == slot);
        } else if slot == 100 && code == "fr-CA"@ {
            assert(prompt_table()[32].0@ == code && prompt_table()[32].1 == slot);
        } else if slot == 8 && code == "fr-FR"@ {
            assert(prompt_table()[33].0@ == code && prompt_table()[33].1 == slot);
        } else if slot == 82 && code == "gn-PY"@ {
            assert(prompt_table()[34].0@ == code && prompt_table()[34].1 == slot);
        } else if slot == 42 && code == "gu-IN"@ {
            assert(prompt_table()[35].0@ == code && prompt_table()[35].1 == slot);
        } else if slot == 50 && code == "ha-NG"@ {
            assert(prompt_table()[36].0@ == code && prompt_table()[36].1 == slot);
        } else if slot == 97 && code == "haw-US"@ {
            assert(prompt_table()[37].0@ == code && prompt_table()[37].1 == slot);
        } else if slot == 64 && code == "he-IL"@ {
            assert(prompt_table()[38].0@ == code && prompt_table()[38].1 == slot);
        } else if slot == 6 && code == "hi"@ {
            assert(prompt_table()[39].0@ == code && prompt_table()[39].1 == slot);
        } else if slot == 6 && code == "hi-HI"@ {
            assert(prompt_table()[40].0@ == code && prompt_table()[40].1 == slot);
        } else if slot == 6 && code == "hi-IN"@ {
            assert(prompt_table()[41].0@ == code && prompt_table()[41].1 == slot);
        } else if slot == 29 && code == "hr"@ {
            assert(prompt_table()[42].0@ == code && prompt_table()[42].1 == slot);
        } else if slot == 29 && code == "hr-HR"@ {
            assert(prompt_table()[43].0@ == code && prompt_table()[43].1 == slot);
        } else if slot == 23 && code == "hu"@ {
            assert(prompt_table()[44].0@ == code && prompt_table()[44].1 == slot);
        } else if slot == 23 && code == "hu-HU"@ {
            assert(prompt_table()[45].0@ == code && prompt_table()[45].1 == slot);
        } else if slot == 68 && code == "hy-AM"@ {
            assert(prompt_table()[46].0@ == code && prompt_table()[46].1 == slot);
        } else if slot == 34 && code == "id-ID"@ {
            assert(prompt_table()[47].0@ == code && prompt_table()[47].1 == slot);
        } else if slot == 53 && code == "ig-NG"@ {
            assert(prompt_table()[48].0@ == code && prompt_table()[48].1 == slot);
        } else if slot == 15 && code == "it"@ {
            assert(prompt_table()[49].0@ == code && prompt_table()[49].1 == slot);
        } else if slot == 15 && code == "it-IT"@ {
            assert(prompt_table()[50].0@ == code && prompt_table()[50].1 == slot);
        } else if slot == 10 && code == "ja-JA"@ {
            assert(prompt_table()[51].0@ == code && prompt_table()[51].1 == slot);
        } else if slot == 10 && code == "ja-JP"@ {
            assert(prompt_table()[52].0@ == code && prompt_table()[52].1 == slot);
        } else if slot == 67 && code == "ka-GE"@ {
            assert(prompt_table()[53].0@ == code && prompt_table()[53].1 == slot);
        } else if slot == 47 && code == "km-KH"@ {
            assert(prompt_table()[54].0@ == code && prompt_table()[54].1 == slot);
        } else if slot == 43 && code == "kn-IN"@ {
            assert(prompt_table()[55].0@ == code && prompt_table()[55].1 == slot);
        } else if slot == 14 && code == "ko"@ {
            assert(prompt_table()[56].0@ == code && prompt_table()[56].1 == slot);
        } else if slot == 14 && code == "ko-KO"@ {
            assert(prompt_table()[57].0@ == code && prompt_table()[57].1 == slot);
        } else if slot == 14 && code == "ko-KR"@ {
            assert(prompt_table()[58].0@ == code && prompt_table()[58].1 == slot);
        } else if slot == 65 && code == "ku-TR"@ {
            assert(prompt_table()[59].0@ == code && prompt_table()[59].1 == slot);
        } else if slot == 71 && code == "ky-KG"@ {
            assert(prompt_table()[60].0@ == code && prompt_table()[60].1 == slot);
        } else if slot == 58 && code == "ln-CD"@ {
            assert(prompt_table()[61].0@ == code && prompt_table()[61].1 == slot);
        } else if slot == 31 && code == "lt"@ {
            assert(prompt_table()[62].0@ == code && prompt_table()[62].1 == slot);
        } else if slot == 31 && code == "lt-LT"@ {
            assert(prompt_table()[63].0@ == code && prompt_table()[63].1 == slot);
        } else if slot == 61 && code == "lv"@ {
            assert(prompt_table()[64].0@ == code && prompt_table()[64].1 == slot);
        } else if slot == 61 && code == "lv-LV"@ {
            assert(prompt_table()[65].0@ == code && prompt_table()[65].1 == slot);
        } else if slot == 96 && code == "mi-NZ"@ {
            assert(prompt_table()[66].0@ == code && prompt_table()[66].1 == slot);
        } else if slot == 44 && code == "ml-IN"@ {
            assert(prompt_table()[67].0@ == code && prompt_table()[67].1 == slot);
        } else if slot == 41 && code == "mr-IN"@ {
            assert(prompt_table()[68].0@ == code && prompt_table()[68].1 == slot);
        } else if slot == 35 && code == "ms-MY"@ {
            assert(prompt_table()[69].0@ == code && prompt_table()[69].1 == slot);
        } else if slot == 102 && code == "mt-MT"@ {
            assert(prompt_table()[70].0@ == code && prompt_table()[70].1 == slot);
        } else if slot == 83 && code == "nah-MX"@ {
            assert(prompt_table()[71].0@ == code && prompt_table()[71].1 == slot);
        } else if slot == 103 && code == "nb"@ {
            assert(prompt_table()[72].0@ == code && prompt_table()[72].1 == slot);
        } else if slot == 103 && code == "nb-NO"@ {
            assert(prompt_table()[73].0@ == code && prompt_table()[73].1 == slot);
        } else if slot == 46 && code == "ne-NP"@ {
            assert(prompt_table()[74].0@ == code && prompt_table()[74].1 == slot);
        } else if slot == 16 && code == "nl"@ {
            assert(prompt_table()[75].0@ == code && prompt_table()[75].1 == slot);
        } else if slot == 16 && code == "nl-NL"@ {
            assert(prompt_table()[76].0@ == code && prompt_table()[76].1 == slot);
        } else if slot == 104 && code == "nn"@ {
            assert(prompt_table()[77].0@ == code && prompt_table()[77].1 == slot);
        } else if slot == 104 && code == "nn-NO"@ {
            assert(prompt_table()[78].0@ == code && prompt_table()[78].1 == slot);
        } else if slot == 27 && code == "no"@ {
            assert(prompt_table()[79].0@ == code && prompt_table()[79].1 == slot);
        } else if slot == 27 && code == "no-NO"@ {
            assert(prompt_table()[80].0@ == code && prompt_table()[80].1 == slot);
        } else if slot == 57 && code == "ny-MW"@ {
            assert(prompt_table()[81].0@ == code && prompt_table()[81].1 == slot);
        } else if slot == 59 && code == "or-KE"@ {
            assert(prompt_table()[82].0@ == code && prompt_table()[82].1 == slot);
        } else if slot == 17 && code == "pl"@ {
            assert(prompt_table()[83].0@ == code && prompt_table()[83].1 == slot);
        } else if slot == 17 && code == "pl-PL"@ {
            assert(prompt_table()[84].0@ == code && prompt_table()[84].1 == slot);
        } else if slot == 13 && code == "pt"@ {
            assert(prompt_table()[85].0@ == code && prompt_table()[85].1 == slot);
        } else if slot == 12 && code == "pt-BR"@ {
            assert(prompt_table()[86].0@ == code && prompt_table()[86].1 == slot);
        } else if slot == 13 && code == "pt-PT"@ {
            assert(prompt_table()[87].0@ == code && prompt_table()[87].1 == slot);
        } else if slot == 80 && code == "qu-PE"@ {
            assert(prompt_table()[88].0@ == code && prompt_table()[88].1 == slot);
        } else if slot == 20 && code == "ro"@ {
            assert(prompt_table()[89].0@ == code && prompt_table()[89].1 == slot);
        } else if slot == 20 && code == "ro-RO"@ {
            assert(prompt_table()[90].0@ == code && prompt_table()[90].1 == slot);
        } else if slot == 11 && code == "ru"@ {
            assert(prompt_table()[91].0@ == code && prompt_table()[91].1 == slot);
        } else if slot == 11 && code == "ru-RU"@ {
            assert(prompt_table()[92].0@ == code && prompt_table()[92].1 == slot);
        } else if slot == 55 && code == "rw-RW"@ {
            assert(prompt_table()[93].0@ == code && prompt_table()[93].1 == slot);
        } else if slot == 45 && code == "si-LK"@ {
            assert(prompt_table()[94].0@ == code && prompt_table()[94].1 == slot);
        } else if slot == 28 && code == "sk"@ {
            assert(prompt_table()[95].0@ == code && prompt_table()[95].1 == slot);
        } else if slot == 28 && code == "sk-SK"@ {
            assert(prompt_table()[96].0@ == code && prompt_table()[96].1 == slot);
        } else if slot == 62 && code == "sl"@ {
            assert(prompt_table()[97].0@ == code && prompt_table()[97].1 == slot);
        } else if slot == 62 && code == "sl-SI"@ {
            assert(prompt_table()[98].0@ == code && prompt_table()[98].1 == slot);
        } else if slot == 98 && code == "sm-WS"@ {
            assert(prompt_table()[99].0@ == code && prompt_table()[99].1 == slot);
        } else if slot == 56 && code == "so-SO"@ {
            assert(prompt_table()[100].0@ == code && prompt_table()[100].1 == slot);
        } else if slot == 24 && code == "sv"@ {
            assert(prompt_table()[101].0@ == code && prompt_table()[101].1 == slot);
        } else if slot == 24 && code == "sv-SE"@ {
            assert(prompt_table()[102].0@ == code && prompt_table()[102].1 == slot);
        } else if slot == 48 && code == "sw-KE"@ {
            assert(prompt_table()[103].0@ == code && prompt_table()[103].1 == slot);
        } else if slot == 39 && code == "ta-IN"@ {
            assert(prompt_table()[104].0@ == code && prompt_table()[104].1 == slot);
        } else if slot == 40 && code == "te-IN"@ {
            assert(prompt_table()[105].0@ == code && prompt_table()[105].1 == slot);
        } else if slot == 70 && code == "tg-TJ"@ {
            assert(prompt_table()[106].0@ == code && prompt_table()[106].1 == slot);
        } else if slot == 32 && code == "th-TH"@ {
            assert(prompt_table()[107].0@ == code && prompt_table()[107].1 == slot);
        } else if slot == 99 && code == "to-TO"@ {
            assert(prompt_table()[108].0@ == code && prompt_table()[108].1 == slot);
        } else if slot == 18 && code == "tr"@ {
            assert(prompt_table()[109].0@ == code && prompt_table()[109].1 == slot);
        } else if slot == 18 && code == "tr-TR"@ {
            assert(prompt_table()[110].0@ == code && prompt_table()[110].1 == slot);
        } else if slot == 19 && code == "uk"@ {
            assert(prompt_table()[111].0@ == code && prompt_table()[111].1 == slot);
        } else if slot == 19 && code == "uk-UA"@ {
            assert(prompt_table()[112].0@ == code && prompt_table()[112].1 == slot);
        } else if slot == 37 && code == "ur-PK"@ {
            assert(prompt_table()[113].0@ == code && prompt_table()[113].1 == slot);
        } else if slot == 69 && code == "uz-UZ"@ {
            assert(prompt_table()[114].0@ == code && prompt_table()[114].1 == slot);
        } else if slot == 33 && code == "vi-VN"@ {
            assert(prompt_table()[115].0@ == code && prompt_table()[115].1 == slot);
        } else if slot == 52 && code == "yo-NG"@ {
            assert(prompt_table()[116].0@ == code && prompt_table()[116].1 == slot);
        } else if slot == 4 && code == "zh-CN"@ {
            assert(prompt_table()[117].0@ == code && prompt_table()[117].1 == slot);
        } else if slot == 5 && code == "zh-TW"@ {
            assert(prompt_table()[118].0@ == code && prompt_table()[118].1 == slot);
        } else if slot == 4 && code == "zh-ZH"@ {
            assert(prompt_table()[119].0@ == code && prompt_table()[119].1 == slot);
        } else if slot == 51 && code == "zu-ZA"@ {
            assert(prompt_table()[120].0@ == code && prompt_table()[120].1 == slot);
        }
    }
}

/// One checkpoint language-prompt slot.
#[derive(Debug, Clone, Copy, PartialEq, Eq)]
pub struct LanguagePrompt {
    code: &'static str,
    id: usize,
}

impl LanguagePrompt {
    /// The alias this prompt was resolved from.
    pub closed spec fn code_view(self) -> &'static str {
        self.code
    }

    /// The prompt slot.
    pub closed spec fn id_view(self) -> usize {
        self.id
    }

    /// Resolves exactly the aliases stored in `processor_config.json`: the
    /// first table entry whose alias is `code`.
    pub fn from_code(code: &str) -> (r: Result<Self, ModelError>)
        ensures
            match r {
                Ok(p) => exists|i: int|
                    0 <= i < prompt_table().len() && (#[trigger] prompt_table()[i]).0@ == code@
                        && (forall|j: int| 0 <= j < i ==> (#[trigger] prompt_table()[j]).0@ != code@)
                        && p.code_view() == prompt_table()[i].0 && p.id_view() == prompt_table()[i].1,
                Err(e) => {
                    &&& forall|i: int| 0 <= i < prompt_table().len() ==> (#[trigger] prompt_table()[i]).0@ != code@
                    &&& e matches ModelError::UnsupportedLanguage(s) && s@ == code@
                },
            },
            r matches Ok(p) ==> alias_of_slot(code@, p.id_view()),
            forall|slot: usize| #[trigger] alias_of_slot(code@, slot) ==> (r matches Ok(p) && p.id_view() == slot),
    {
        proof {
            lemma_prompt_slots();
            lemma_prompt_aliases_distinct();
        }
        let table = prompt_dictionary();
        let mut i: usize = 0;
        while i < table.len()
            invariant
                table@ == prompt_table(),
                i <= table@.len(),
                forall|j: int| 0 <= j < i ==> (#[trigger] prompt_table()[j]).0@ != code@,
            decreases table.len() - i,
        {
            let (candidate, id) = table[i];
            if str_equal(candidate, code) {
                proof {
                    lemma_prompt_slots();
                    lemma_prompt_aliases_distinct();
                    assert(prompt_table()[i as int].0@ == code@ && prompt_table()[i as int].1 == id);
                    assert forall|slot: usize| #[trigger] alias_of_slot(code@, slot) implies id == slot by {
                        assert(exists|k: int|
                            0 <= k < prompt_table().len() && #[trigger] prompt_table()[k].0@ == code@
                                && prompt_table()[k].1 == slot);
                        let k = choose|k: int|
                            0 <= k < prompt_table().len() && #[trigger] prompt_table()[k].0@ == code@
                                && prompt_table()[k].1 == slot;
                        if k < i {
                            assert(prompt_table()[k].0@ != prompt_table()[i as int].0@);
                        } else if k > i {
                            assert(prompt_table()[i as int].0@ != prompt_table()[k].0@);
                        }
                    }
                }
                return Ok(LanguagePrompt { code: candidate, id });
            }
            i += 1;
        }
        Err(ModelError::UnsupportedLanguage(code.to_owned()))
    }

    /// The prompt slot.
    pub fn id(self) -> (r: usize)
        ensures
            r == self.id_view(),
    {
        self.id
    }

    /// The alias this prompt was resolved from.
    pub fn code(self) -> (r: &'static str)
        ensures
            r == self.code_view(),
    {
        self.code
    }

    /// Every supported alias with its prompt slot.
    pub fn supported_codes() -> (r: Vec<(&'static str, usize)>)
        ensures
            r@ == prompt_table(),
    {
        prompt_dictionary()
    }
}

/// `a` comes strictly before `b` in character order.
pub open spec fn alias_before(a: Seq<char>, b: Seq<char>) -> bool
    decreases a.len(),
{
    if b.len() == 0 {
        false
    } else if a.len() == 0 {
        true
    } else if a[0] != b[0] {
        (a[0] as u32) < (b[0] as u32)
    } else {
        alias_before(a.drop_first(), b.drop_first())
    }
}

proof fn lemma_before_transitive(a: Seq<char>, b: Seq<char>, c: Seq<char>)
    requires
        alias_before(a, b),
        alias_before(b, c),
    ensures
        alias_before(a, c),
    decreases a.len(),
{
    if a.len() > 0 && b.len() > 0 && c.len() > 0 && a[0] == b[0] && b[0] == c[0] {
        lemma_before_transitive(a.drop_first(), b.drop_first(), c.drop_first());
    }
}

proof fn lemma_before_irreflexive(a: Seq<char>)
    ensures
        !alias_before(a, a),
    decreases a.len(),
{
    if a.len() > 0 {
        lemma_before_irreflexive(a.drop_first());
    }
}

proof fn lemma_table_sorted_from_0()
    ensures
        forall|k: int| 0 <= k < 20 ==> #[trigger] alias_before(prompt_table()[k].0@, prompt_table()[k + 1].0@),
{
    let t = prompt_table();
    reveal_strlit("af-ZA");
    reveal_strlit("am-ET");
    reveal_strlit("ar");
    reveal_strlit("ar-AR");
    reveal_strlit("auto");
    reveal_strlit("ay-BO");
    reveal_strlit("az-AZ");
    reveal_strlit("bg");
    reveal_strlit("bg-BG");
    reveal_strlit("bn-IN");
    reveal_strlit("cs");
    reveal_strlit("cs-CZ");
    reveal_strlit("da");
    reveal_strlit("da-DK");
    reveal_strlit("de");
    reveal_strlit("de-DE");
    reveal_strlit("el");
    reveal_strlit("el-GR");
    reveal_strlit("en");
    reveal_strlit("en-GB");
    reveal_strlit("en-US");
    reveal_with_fuel(alias_before, 7);
    assert(alias_before(t[0].0@, t[1].0@));
    assert(alias_before(t[1].0@, t[2].0@));
    assert(alias_before(t[2].0@, t[3].0@));
    assert(alias_before(t[3].0@, t[4].0@));
    assert(alias_before(t[4].0@, t[5].0@));
    assert(alias_before(t[5].0@, t[6].0@));
    assert(alias_before(t[6].0@, t[7].0@));
    assert(alias_before(t[7].0@, t[8].0@));
    assert(alias_before(t[8].0@, t[9].0@));
    assert(alias_before(t[9].0@, t[10].0@));
    assert(alias_before(t[10].0@, t[11].0@));
    assert(alias_before(t[11].0@, t[12].0@));
    assert(alias_before(t[12].0@, t[13].0@));
    assert(alias_before(t[13].0@, t[14].0@));
    assert(alias_before(t[14].0@, t[15].0@));
    assert(alias_before(t[15].0@, t[16].0@));
    assert(alias_before(t[16].0@, t[17].0@));
    assert(alias_before(t[17].0@, t[18].0@));
    assert(alias_before(t[18].0@, t[19].0@));
    assert(alias_before(t[19].0@, t[20].0@));
}

proof fn lemma_table_sorted_from_20()
    ensures
        forall|k: int| 20 <= k < 40 ==> #[trigger] alias_before(prompt_table()[k].0@, prompt_table()[k + 1].0@),
{
    let t = prompt_table();
    reveal_strlit("en-US");
    reveal_strlit("enGB");
    reveal_strlit("es");
    reveal_strlit("es-ES");
    reveal_strlit("es-US");
    reveal_strlit("esES");
    reveal_strlit("et");
    reveal_strlit("et-EE");
    reveal_strlit("fa-IR");
    reveal_strlit("fi");
    reveal_strlit("fi-FI");
    reveal_strlit("fr");
    reveal_strlit("fr-CA");
    reveal_strlit("fr-FR");
    reveal_strlit("gn-PY");
    reveal_strlit("gu-IN");
    reveal_strlit("ha-NG");
    reveal_strlit("haw-US");
    reveal_strlit("he-IL");
    reveal_strlit("hi");
    reveal_strlit("hi-HI");
    reveal_with_fuel(alias_before, 7);
    assert(alias_before(t[20].0@, t[21].0@));
    assert(alias_before(t[21].0@, t[22].0@));
    assert(alias_before(t[22].0@, t[23].0@));
    assert(alias_before(t[23].0@, t[24].0@));
    assert(alias_before(t[24].0@, t[25].0@));
    assert(alias_before(t[25].0@, t[26].0@));
    assert(alias_before(t[26].0@, t[27].0@));
    assert(alias_before(t[27].0@, t[28].0@));
    assert(alias_before(t[28].0@, t[29].0@));
    assert(alias_before(t[29].0@, t[30].0@));
    assert(alias_before(t[30].0@, t[31].0@));
    assert(alias_before(t[31].0@, t[32].0@));
    assert(alias_before(t[32].0@, t[33].0@));
    assert(alias_before(t[33].0@, t[34].0@));
    assert(alias_before(t[34].0@, t[35].0@));
    assert(alias_before(t[35].0@, t[36].0@));
    assert(alias_before(t[36].0@, t[37].0@));
    assert(alias_before(t[37].0@, t[38].0@));
    assert(alias_before(t[38].0@, t[39].0@));
    assert(alias_before(t[39].0@, t[40].0@));
}

proof fn lemma_table_sorted_from_40()
    ensures
        forall|k: int| 40 <= k < 60 ==> #[trigger] alias_before(prompt_table()[k].0@, prompt_table()[k + 1].0@),
{
    let t = prompt_table();
    reveal_strlit("hi-HI");
    reveal_strlit("hi-IN");
    reveal_strlit("hr");
    reveal_strlit("hr-HR");
    reveal_strlit("hu");
    reveal_strlit("hu-HU");
    reveal_strlit("hy-AM");
    reveal_strlit("id-ID");
    reveal_strlit("ig-NG");
    reveal_strlit("it");
    reveal_strlit("it-IT");
    reveal_strlit("ja-JA");
    reveal_strlit("ja-JP");
    reveal_strlit("ka-GE");
    reveal_strlit("km-KH");
    reveal_strlit("kn-IN");
    reveal_strlit("ko");
    reveal_strlit("ko-KO");
    reveal_strlit("ko-KR");
    reveal_strlit("ku-TR");
    reveal_strlit("ky-KG");
    reveal_with_fuel(alias_before, 7);
    assert(alias_before(t[40].0@, t[41].0@));
    assert(alias_before(t[41].0@, t[42].0@));
    assert(alias_before(t[42].0@, t[43].0@));
    assert(alias_before(t[43].0@, t[44].0@));
    assert(alias_before(t[44].0@, t[45].0@));
    assert(alias_before(t[45].0@, t[46].0@));
    assert(alias_before(t[46].0@, t[47].0@));
    assert(alias_before(t[47].0@, t[48].0@));
    assert(alias_before(t[48].0@, t[49].0@));
    assert(alias_before(t[49].0@, t[50].0@));
    assert(alias_before(t[50].0@, t[51].0@));
    assert(alias_before(t[51].0@, t[52].0@));
    assert(alias_before(t[52].0@, t[53].0@));
    assert(alias_before(t[53].0@, t[54].0@));
    assert(alias_before(t[54].0@, t[55].0@));
    assert(alias_before(t[55].0@, t[56].0@));
    assert(alias_before(t[56].0@, t[57].0@));
    assert(alias_before(t[57].0@, t[58].0@));
    assert(alias_before(t[58].0@, t[59].0@));
    assert(alias_before(t[59].0@, t[60].0@));
}

proof fn lemma_table_sorted_from_60()
    ensures
        forall|k: int| 60 <= k < 80 ==> #[trigger] alias_before(prompt_table()[k].0@, prompt_table()[k + 1].0@),
{
    let t = prompt_table();
    reveal_strlit("ky-KG");
    reveal_strlit("ln-CD");
    reveal_strlit("lt");
    reveal_strlit("lt-LT");
    reveal_strlit("lv");
    reveal_strlit("lv-LV");
    reveal_strlit("mi-NZ");
    reveal_strlit("ml-IN");
    reveal_strlit("mr-IN");
    reveal_strlit("ms-MY");
    reveal_strlit("mt-MT");
    reveal_strlit("nah-MX");
    reveal_strlit("nb");
    reveal_strlit("nb-NO");
    reveal_strlit("ne-NP");
    reveal_strlit("nl");
    reveal_strlit("nl-NL");
    reveal_strlit("nn");
    reveal_strlit("nn-NO");
    reveal_strlit("no");
    reveal_strlit("no-NO");
    reveal_with_fuel(alias_before, 7);
    assert(alias_before(t[60].0@, t[61].0@));
    assert(alias_before(t[61].0@, t[62].0@));
    assert(alias_before(t[62].0@, t[63].0@));
    assert(alias_before(t[63].0@, t[64].0@));
    assert(alias_before(t[64].0@, t[65].0@));
    assert(alias_before(t[65].0@, t[66].0@));
    assert(alias_before(t[66].0@, t[67].0@));
    assert(alias_before(t[67].0@, t[68].0@));
    assert(alias_before(t[68].0@, t[69].0@));
    assert(alias_before(t[69].0@, t[70].0@));
    assert(alias_before(t[70].0@, t[71].0@));
    assert(alias_before(t[71].0@, t[72].0@));
    assert(alias_before(t[72].0@, t[73].0@));
    assert(alias_before(t[73].0@, t[74].0@));
    assert(alias_before(t[74].0@, t[75].0@));
    assert(alias_before(t[75].0@, t[76].0@));
    assert(alias_before(t[76].0@, t[77].0@));
    assert(alias_before(t[77].0@, t[78].0@));
    assert(alias_before(t[78].0@, t[79].0@));
    assert(alias_before(t[79].0@, t[80].0@));
}

proof fn lemma_table_sorted_from_80()
    ensures
        forall|k: int| 80 <= k < 100 ==> #[trigger] alias_before(prompt_table()[k].0@, prompt_table()[k + 1].0@),
{
    let t = prompt_table();
    reveal_strlit("no-NO");
    reveal_strlit("ny-MW");
    reveal_strlit("or-KE");
    reveal_strlit("pl");
    reveal_strlit("pl-PL");
    reveal_strlit("pt");
    reveal_strlit("pt-BR");
    reveal_strlit("pt-PT");
    reveal_strlit("qu-PE");
    reveal_strlit("ro");
    reveal_strlit("ro-RO");
    reveal_strlit("ru");
    reveal_strlit("ru-RU");
    reveal_strlit("rw-RW");
    reveal_strlit("si-LK");
    reveal_strlit("sk");
    reveal_strlit("sk-SK");
    reveal_strlit("sl");
    reveal_strlit("sl-SI");
    reveal_strlit("sm-WS");
    reveal_strlit("so-SO");
    reveal_with_fuel(alias_before, 7);
    assert(alias_before(t[80].0@, t[81].0@));
    assert(alias_before(t[81].0@, t[82].0@));
    assert(alias_before(t[82].0@, t[83].0@));
    assert(alias_before(t[83].0@, t[84].0@));
    assert(alias_before(t[84].0@, t[85].0@));
    assert(alias_before(t[85].0@, t[86].0@));
    assert(alias_before(t[86].0@, t[87].0@));
    assert(alias_before(t[87].0@, t[88].0@));
    assert(alias_before(t[88].0@, t[89].0@));
    assert(alias_before(t[89].0@, t[90].0@));
    assert(alias_before(t[90].0@, t[91].0@));
    assert(alias_before(t[91].0@, t[92].0@));
    assert(alias_before(t[92].0@, t[93].0@));
    assert(alias_before(t[93].0@, t[94].0@));
    assert(alias_before(t[94].0@, t[95].0@));
    assert(alias_before(t[95].0@, t[96].0@));
    assert(alias_before(t[96].0@, t[97].0@));
    assert(alias_before(t[97].0@, t[98].0@));
    assert(alias_before(t[98].0@, t[99].0@));
    assert(alias_before(t[99].0@, t[100].0@));
}

proof fn lemma_table_sorted_from_100()
    ensures
        forall|k: int| 100 <= k < 120 ==> #[trigger] alias_before(prompt_table()[k].0@, prompt_table()[k + 1].0@),
{
    let t = prompt_table();
    reveal_strlit("so-SO");
    reveal_strlit("sv");
    reveal_strlit("sv-SE");
    reveal_strlit("sw-KE");
    reveal_strlit("ta-IN");
    reveal_strlit("te-IN");
    reveal_strlit("tg-TJ");
    reveal_strlit("th-TH");
    reveal_strlit("to-TO");
    reveal_strlit("tr");
    reveal_strlit("tr-TR");
    reveal_strlit("uk");
    reveal_strlit("uk-UA");
    reveal_strlit("ur-PK");
    reveal_strlit("uz-UZ");
    reveal_strlit("vi-VN");
    reveal_strlit("yo-NG");
    reveal_strlit("zh-CN");
    reveal_strlit("zh-TW");
    reveal_strlit("zh-ZH");
    reveal_strlit("zu-ZA");
    reveal_with_fuel(alias_before, 7);
    assert(alias_before(t[100].0@, t[101].0@));
    assert(alias_before(t[101].0@, t[102].0@));
    assert(alias_before(t[102].0@, t[103].0@));
    assert(alias_before(t[103].0@, t[104].0@));
    assert(alias_before(t[104].0@, t[105].0@));
    assert(alias_before(t[105].0@, t[106].0@));
    assert(alias_before(t[106].0@, t[107].0@));
    assert(alias_before(t[107].0@, t[108].0@));
    assert(alias_before(t[108].0@, t[109].0@));
    assert(alias_before(t[109].0@, t[110].0@));
    assert(alias_before(t[110].0@, t[111].0@));
    assert(alias_before(t[111].0@, t[112].0@));
    assert(alias_before(t[112].0@, t[113].0@));
    assert(alias_before(t[113].0@, t[114].0@));
    assert(alias_before(t[114].0@, t[115].0@));
    assert(alias_before(t[115].0@, t[116].0@));
    assert(alias_before(t[116].0@, t[117].0@));
    assert(alias_before(t[117].0@, t[118].0@));
    assert(alias_before(t[118].0@, t[119].0@));
    assert(alias_before(t[119].0@, t[120].0@));
}

/// Consecutive aliases of the prompt table are in character order.
proof fn lemma_table_sorted()
    ensures
        forall|k: int| 0 <= k < prompt_table().len() - 1 ==> #[trigger] alias_before(prompt_table()[k].0@, prompt_table()[k + 1].0@),
{
    lemma_table_sorted_from_0();
    lemma_table_sorted_from_20();
    lemma_table_sorted_from_40();
    lemma_table_sorted_from_60();
    lemma_table_sorted_from_80();
    lemma_table_sorted_from_100();
    assert(prompt_table().len() == 121);
}

proof fn lemma_table_before(i: int, j: int)
    requires
        0 <= i < j < prompt_table().len(),
    ensures
        alias_before(prompt_table()[i].0@, prompt_table()[j].0@),
    decreases j - i,
{
    lemma_table_sorted();
    if j == i + 1 {
        assert(alias_before(prompt_table()[i].0@, prompt_table()[i + 1].0@));
    } else {
        lemma_table_before(i, j - 1);
        let k = j - 1;
        assert(alias_before(prompt_table()[k].0@, prompt_table()[k + 1].0@));
        lemma_before_transitive(prompt_table()[i].0@, prompt_table()[j - 1].0@, prompt_table()[j].0@);
    }
}

/// No two entries of the prompt table share an alias, so `from_code` on a
/// supported alias finds exactly its own entry: the round trip through
/// `supported_codes`, `from_code`, `code` and `id` gives back each alias
/// and its slot.
pub proof fn lemma_prompt_aliases_distinct()
    ensures
        forall|i: int, j: int| 0 <= i < j < prompt_table().len()
            ==> #[trigger] prompt_table()[i].0@ != #[trigger] prompt_table()[j].0@,
{
    assert forall|i: int, j: int| 0 <= i < j < prompt_table().len()
        implies #[trigger] prompt_table()[i].0@ != #[trigger] prompt_table()[j].0@ by {
        lemma_table_before(i, j);
        lemma_before_irreflexive(prompt_table()[i].0@);
    }
}

} // verus!
