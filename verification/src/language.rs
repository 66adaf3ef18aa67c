//! The languages of sound and subtitles: a language is asked for by its name or by a code, and
//! streams are marked with a code.

use crate::text;
use vstd::prelude::*;
use vstd::string::*;

verus! {

/// A language by its English name and its ISO 639 codes: that of two letters, and those of three.
/// Where there is one code of three letters only, it stands twice.
#[derive(Clone, Copy, Debug)]
pub struct Language {
    pub name: &'static str,
    pub short: &'static str,
    pub code: &'static str,
    pub other: &'static str,
}

impl Language {
    /// Whether a word in lower case means this language.
    pub open spec fn has(self, word: Seq<char>) -> bool {
        word == self.name@ || word == self.short@ || word == self.code@ || word == self.other@
    }

    fn is_meant_by(&self, word: &str) -> (yes: bool)
        ensures
            yes == self.has(word@),
    {
        text::same_text(word, self.name) || text::same_text(word, self.short) || text::same_text(
            word,
            self.code,
        ) || text::same_text(word, self.other)
    }
}

/// A language with the given name and codes.
pub open spec fn entry(
    name: &'static str,
    short: &'static str,
    code: &'static str,
    other: &'static str,
) -> Language {
    Language { name, short, code, other }
}

/// The languages that are known by name.
pub open spec fn known_languages() -> Seq<Language> {
    seq![
        entry("arabic", "ar", "ara", "ara"),
        entry("bulgarian", "bg", "bul", "bul"),
        entry("catalan", "ca", "cat", "cat"),
        entry("chinese", "zh", "zho", "chi"),
        entry("croatian", "hr", "hrv", "hrv"),
        entry("czech", "cs", "ces", "cze"),
        entry("danish", "da", "dan", "dan"),
        entry("dutch", "nl", "nld", "dut"),
        entry("english", "en", "eng", "eng"),
        entry("estonian", "et", "est", "est"),
        entry("finnish", "fi", "fin", "fin"),
        entry("french", "fr", "fra", "fre"),
        entry("german", "de", "deu", "ger"),
        entry("greek", "el", "ell", "gre"),
        entry("hebrew", "he", "heb", "heb"),
        entry("hindi", "hi", "hin", "hin"),
        entry("hungarian", "hu", "hun", "hun"),
        entry("icelandic", "is", "isl", "ice"),
        entry("indonesian", "id", "ind", "ind"),
        entry("italian", "it", "ita", "ita"),
        entry("japanese", "ja", "jpn", "jpn"),
        entry("korean", "ko", "kor", "kor"),
        entry("latvian", "lv", "lav", "lav"),
        entry("lithuanian", "lt", "lit", "lit"),
        entry("malay", "ms", "msa", "may"),
        entry("malayalam", "ml", "mal", "mal"),
        entry("norwegian", "no", "nor", "nor"),
        entry("persian", "fa", "fas", "per"),
        entry("polish", "pl", "pol", "pol"),
        entry("portuguese", "pt", "por", "por"),
        entry("romanian", "ro", "ron", "rum"),
        entry("russian", "ru", "rus", "rus"),
        entry("serbian", "sr", "srp", "srp"),
        entry("slovak", "sk", "slk", "slo"),
        entry("slovenian", "sl", "slv", "slv"),
        entry("spanish", "es", "spa", "spa"),
        entry("swedish", "sv", "swe", "swe"),
        entry("tamil", "ta", "tam", "tam"),
        entry("telugu", "te", "tel", "tel"),
        entry("thai", "th", "tha", "tha"),
        entry("turkish", "tr", "tur", "tur"),
        entry("ukrainian", "uk", "ukr", "ukr"),
        entry("vietnamese", "vi", "vie", "vie"),
        entry("welsh", "cy", "cym", "wel"),
    ]
}

fn new_entry(
    name: &'static str,
    short: &'static str,
    code: &'static str,
    other: &'static str,
) -> (language: Language)
    ensures
        language == entry(name, short, code, other),
{
    Language { name, short, code, other }
}

/// The languages that are known by name.
pub fn languages() -> (list: Vec<Language>)
    ensures
        list@ == known_languages(),
{
    let mut list: Vec<Language> = Vec::new();
    list.push(new_entry("arabic", "ar", "ara", "ara"));
    list.push(new_entry("bulgarian", "bg", "bul", "bul"));
    list.push(new_entry("catalan", "ca", "cat", "cat"));
    list.push(new_entry("chinese", "zh", "zho", "chi"));
    list.push(new_entry("croatian", "hr", "hrv", "hrv"));
    list.push(new_entry("czech", "cs", "ces", "cze"));
    list.push(new_entry("danish", "da", "dan", "dan"));
    list.push(new_entry("dutch", "nl", "nld", "dut"));
    list.push(new_entry("english", "en", "eng", "eng"));
    list.push(new_entry("estonian", "et", "est", "est"));
    list.push(new_entry("finnish", "fi", "fin", "fin"));
    list.push(new_entry("french", "fr", "fra", "fre"));
    list.push(new_entry("german", "de", "deu", "ger"));
    list.push(new_entry("greek", "el", "ell", "gre"));
    list.push(new_entry("hebrew", "he", "heb", "heb"));
    list.push(new_entry("hindi", "hi", "hin", "hin"));
    list.push(new_entry("hungarian", "hu", "hun", "hun"));
    list.push(new_entry("icelandic", "is", "isl", "ice"));
    list.push(new_entry("indonesian", "id", "ind", "ind"));
    list.push(new_entry("italian", "it", "ita", "ita"));
    list.push(new_entry("japanese", "ja", "jpn", "jpn"));
    list.push(new_entry("korean", "ko", "kor", "kor"));
    list.push(new_entry("latvian", "lv", "lav", "lav"));
    list.push(new_entry("lithuanian", "lt", "lit", "lit"));
    list.push(new_entry("malay", "ms", "msa", "may"));
    list.push(new_entry("malayalam", "ml", "mal", "mal"));
    list.push(new_entry("norwegian", "no", "nor", "nor"));
    list.push(new_entry("persian", "fa", "fas", "per"));
    list.push(new_entry("polish", "pl", "pol", "pol"));
    list.push(new_entry("portuguese", "pt", "por", "por"));
    list.push(new_entry("romanian", "ro", "ron", "rum"));
    list.push(new_entry("russian", "ru", "rus", "rus"));
    list.push(new_entry("serbian", "sr", "srp", "srp"));
    list.push(new_entry("slovak", "sk", "slk", "slo"));
    list.push(new_entry("slovenian", "sl", "slv", "slv"));
    list.push(new_entry("spanish", "es", "spa", "spa"));
    list.push(new_entry("swedish", "sv", "swe", "swe"));
    list.push(new_entry("tamil", "ta", "tam", "tam"));
    list.push(new_entry("telugu", "te", "tel", "tel"));
    list.push(new_entry("thai", "th", "tha", "tha"));
    list.push(new_entry("turkish", "tr", "tur", "tur"));
    list.push(new_entry("ukrainian", "uk", "ukr", "ukr"));
    list.push(new_entry("vietnamese", "vi", "vie", "vie"));
    list.push(new_entry("welsh", "cy", "cym", "wel"));
    assert(list@ =~= known_languages());
    list
}

/// Whether a word in lower case means a language that is known.
pub open spec fn is_known(word: Seq<char>) -> bool {
    exists|i: int| 0 <= i < known_languages().len() && (#[trigger] known_languages()[i]).has(word)
}

/// Whether two words in lower case mean the same language.
pub open spec fn same_language(a: Seq<char>, b: Seq<char>) -> bool {
    exists|i: int|
        0 <= i < known_languages().len() && (#[trigger] known_languages()[i]).has(a)
            && known_languages()[i].has(b)
}

/// Whether a stream that is marked with `mark` is in the language that is asked for by `wanted`,
/// both in lower case. Where both words are known they are to mean the same language; else one of
/// them is to begin with the other. A stream without a mark is in no language.
pub open spec fn is_in_language(mark: Seq<char>, wanted: Seq<char>) -> bool {
    mark.len() > 0 && if is_known(mark) && is_known(wanted) {
        same_language(mark, wanted)
    } else {
        wanted.is_prefix_of(mark) || mark.is_prefix_of(wanted)
    }
}

/// Whether a stream that is marked with `mark` is in the language that is asked for by `wanted`.
pub fn speaks(mark: &str, wanted: &str) -> (yes: bool)
    ensures
        yes == is_in_language(mark@, wanted@),
{
    if text::is_empty(mark) {
        return false;
    }
    let list: Vec<Language> = languages();
    let mut mark_known: bool = false;
    let mut wanted_known: bool = false;
    let mut same: bool = false;
    let mut i: usize = 0;
    while i < list.len()
        invariant
            i <= list@.len(),
            list@ == known_languages(),
            mark_known == exists|j: int|
                0 <= j < i && (#[trigger] known_languages()[j]).has(mark@),
            wanted_known == exists|j: int|
                0 <= j < i && (#[trigger] known_languages()[j]).has(wanted@),
            same == exists|j: int|
                0 <= j < i && (#[trigger] known_languages()[j]).has(mark@)
                    && known_languages()[j].has(wanted@),
        decreases list@.len() - i,
    {
        let means_mark: bool = list[i].is_meant_by(mark);
        let means_wanted: bool = list[i].is_meant_by(wanted);
        proof {
            assert(list@[i as int] == known_languages()[i as int]);
        }
        mark_known = mark_known || means_mark;
        wanted_known = wanted_known || means_wanted;
        same = same || means_mark && means_wanted;
        i += 1;
    }
    if mark_known && wanted_known {
        same
    } else {
        text::starts_with(mark, wanted) || text::starts_with(wanted, mark)
    }
}

/// A language can be asked for by any of its words, whichever of them marks the stream.
pub proof fn law_any_word_asks_for_a_language(i: int, mark: Seq<char>, wanted: Seq<char>)
    requires
        0 <= i < known_languages().len(),
        known_languages()[i].has(mark),
        known_languages()[i].has(wanted),
    ensures
        is_in_language(mark, wanted),
{
    lemma_row(i, mark);
    assert(mark.len() > 0) by {
        assert(mark.len() == 0 ==> key(mark) == 0);
    }
}

/// A stream without a mark is not what is asked for by any word.
pub proof fn law_unmarked_stream_is_in_no_language(wanted: Seq<char>)
    ensures
        !is_in_language(seq![], wanted),
{
}

/// The character at a place, zero behind the end.
spec fn char_at(word: Seq<char>, i: int) -> int {
    if i < word.len() {
        word[i] as int
    } else {
        0
    }
}

/// A number that no two words of different languages share.
spec fn key(word: Seq<char>) -> int {
    word.len() + 16 * (char_at(word, 0) + 128 * (char_at(word, 1) + 128 * char_at(word, 2)))
}

/// The place of the language whose words have a number.
spec fn row_of_key(k: int) -> int {
    if k == 235026 || k == 25662995 || k == 25662998 {
        0
    } else if k == 212514 || k == 28552739 || k == 28552745 {
        1
    } else if k == 200242 || k == 30608947 || k == 30608951 {
        2
    } else if k == 214946 || k == 27739699 || k == 27739703 || k == 29312931 {
        3
    } else if k == 235138 || k == 29333048 || k == 31168131 {
        4
    } else if k == 237106 || k == 26727987 || k == 26727989 || k == 30354995 {
        5
    } else if k == 200258 || k == 29036099 || k == 29036102 {
        6
    } else if k == 222946 || k == 26437347 || k == 30649923 || k == 30649925 {
        7
    } else if k == 226898 || k == 27227731 || k == 27227735 {
        8
    } else if k == 239186 || k == 30645843 || k == 30645848 {
        9
    } else if k == 216674 || k == 29052515 || k == 29052519 {
        10
    } else if k == 235106 || k == 25663075 || k == 26711651 || k == 26711654 {
        11
    } else if k == 208450 || k == 30092915 || k == 30092918 || k == 30879299 {
        12
    } else if k == 222802 || k == 26711667 || k == 26711669 || k == 28534355 {
        13
    } else if k == 208514 || k == 25898627 || k == 25898630 {
        14
    } else if k == 216706 || k == 29052547 || k == 29052549 {
        15
    } else if k == 241282 || k == 29077123 || k == 29077129 {
        16
    } else if k == 237202 || k == 26680979 || k == 26680985 || k == 28548755 {
        17
    } else if k == 206482 || k == 26441363 || k == 26441370 {
        18
    } else if k == 239250 || k == 25667219 || k == 25667223 {
        19
    } else if k == 200354 || k == 29066915 || k == 29560488 {
        20
    } else if k == 229042 || k == 30113459 || k == 30113462 {
        21
    } else if k == 243394 || k == 30609095 || k == 31133379 {
        22
    } else if k == 239298 || k == 30625475 || k == 30625482 {
        23
    } else if k == 237266 || k == 25665235 || k == 28511957 || k == 31919827 {
        24
    } else if k == 222930 || k == 28511955 || k == 28511961 {
        25
    } else if k == 229090 || k == 30113507 || k == 30113513 {
        26
    } else if k == 200290 || k == 30093059 || k == 30093063 || k == 30346851 {
        27
    } else if k == 222978 || k == 28540675 || k == 28540678 {
        28
    } else if k == 239362 || k == 30113539 || k == 30113546 {
        29
    } else if k == 229154 || k == 28802856 || k == 28815139 || k == 29064995 {
        30
    } else if k == 241442 || k == 30388003 || k == 30388007 {
        31
    } else if k == 235314 || k == 29595443 || k == 30093111 {
        32
    } else if k == 220978 || k == 28272435 || k == 29321011 || k == 29321014 {
        33
    } else if k == 223026 || k == 29321017 || k == 31156019 {
        34
    } else if k == 237138 || k == 25659187 || k == 25659191 {
        35
    } else if k == 243506 || k == 26722099 || k == 26722103 {
        36
    } else if k == 200514 || k == 28774211 || k == 28774213 {
        37
    } else if k == 208706 || k == 28520259 || k == 28520262 {
        38
    } else if k == 214850 || k == 25642819 || k == 25642820 {
        39
    } else if k == 235330 || k == 30125891 || k == 30125895 {
        40
    } else if k == 221010 || k == 30105427 || k == 30105433 {
        41
    } else if k == 216930 || k == 26693475 || k == 26693482 {
        42
    } else if k == 249394 || k == 28520307 || k == 28520309 || k == 28823091 {
        43
    } else {
        -1
    }
}

proof fn lemma_rows_0_to_10(i: int, word: Seq<char>)
    requires
        0 <= i < 11,
        known_languages()[i].has(word),
    ensures
        row_of_key(key(word)) == i,
{
    if i == 0 {
        reveal_strlit("arabic");
        reveal_strlit("ar");
        reveal_strlit("ara");
        assert(known_languages()[0] == entry("arabic", "ar", "ara", "ara"));
        assert(key("arabic"@) == 25662998);
        assert(key("ar"@) == 235026);
        assert(key("ara"@) == 25662995);
    } else if i == 1 {
        reveal_strlit("bulgarian");
        reveal_strlit("bg");
        reveal_strlit("bul");
        assert(known_languages()[1] == entry("bulgarian", "bg", "bul", "bul"));
        assert(key("bulgarian"@) == 28552745);
        assert(key("bg"@) == 212514);
        assert(key("bul"@) == 28552739);
    } else if i == 2 {
        reveal_strlit("catalan");
        reveal_strlit("ca");
        reveal_strlit("cat");
        assert(known_languages()[2] == entry("catalan", "ca", "cat", "cat"));
        assert(key("catalan"@) == 30608951);
        assert(key("ca"@) == 200242);
        assert(key("cat"@) == 30608947);
    } else if i == 3 {
        reveal_strlit("chinese");
        reveal_strlit("zh");
        reveal_strlit("zho");
        reveal_strlit("chi");
        assert(known_languages()[3] == entry("chinese", "zh", "zho", "chi"));
        assert(key("chinese"@) == 27739703);
        assert(key("zh"@) == 214946);
        assert(key("zho"@) == 29312931);
        assert(key("chi"@) == 27739699);
    } else if i == 4 {
        reveal_strlit("croatian");
        reveal_strlit("hr");
        reveal_strlit("hrv");
        assert(known_languages()[4] == entry("croatian", "hr", "hrv", "hrv"));
        assert(key("croatian"@) == 29333048);
        assert(key("hr"@) == 235138);
        assert(key("hrv"@) == 31168131);
    } else if i == 5 {
        reveal_strlit("czech");
        reveal_strlit("cs");
        reveal_strlit("ces");
        reveal_strlit("cze");
        assert(known_languages()[5] == entry("czech", "cs", "ces", "cze"));
        assert(key("czech"@) == 26727989);
        assert(key("cs"@) == 237106);
        assert(key("ces"@) == 30354995);
        assert(key("cze"@) == 26727987);
    } else if i == 6 {
        reveal_strlit("danish");
        reveal_strlit("da");
        reveal_strlit("dan");
        assert(known_languages()[6] == entry("danish", "da", "dan", "dan"));
        assert(key("danish"@) == 29036102);
        assert(key("da"@) == 200258);
        assert(key("dan"@) == 29036099);
    } else if i == 7 {
        reveal_strlit("dutch");
        reveal_strlit("nl");
        reveal_strlit("nld");
        reveal_strlit("dut");
        assert(known_languages()[7] == entry("dutch", "nl", "nld", "dut"));
        assert(key("dutch"@) == 30649925);
        assert(key("nl"@) == 222946);
        assert(key("nld"@) == 26437347);
        assert(key("dut"@) == 30649923);
    } else if i == 8 {
        reveal_strlit("english");
        reveal_strlit("en");
        reveal_strlit("eng");
        assert(known_languages()[8] == entry("english", "en", "eng", "eng"));
        assert(key("english"@) == 27227735);
        assert(key("en"@) == 226898);
        assert(key("eng"@) == 27227731);
    } else if i == 9 {
        reveal_strlit("estonian");
        reveal_strlit("et");
        reveal_strlit("est");
        assert(known_languages()[9] == entry("estonian", "et", "est", "est"));
        assert(key("estonian"@) == 30645848);
        assert(key("et"@) == 239186);
        assert(key("est"@) == 30645843);
    } else if i == 10 {
        reveal_strlit("finnish");
        reveal_strlit("fi");
        reveal_strlit("fin");
        assert(known_languages()[10] == entry("finnish", "fi", "fin", "fin"));
        assert(key("finnish"@) == 29052519);
        assert(key("fi"@) == 216674);
        assert(key("fin"@) == 29052515);
    }
}

proof fn lemma_rows_11_to_21(i: int, word: Seq<char>)
    requires
        11 <= i < 22,
        known_languages()[i].has(word),
    ensures
        row_of_key(key(word)) == i,
{
    if i == 11 {
        reveal_strlit("french");
        reveal_strlit("fr");
        reveal_strlit("fra");
        reveal_strlit("fre");
        assert(known_languages()[11] == entry("french", "fr", "fra", "fre"));
        assert(key("french"@) == 26711654);
        assert(key("fr"@) == 235106);
        assert(key("fra"@) == 25663075);
        assert(key("fre"@) == 26711651);
    } else if i == 12 {
        reveal_strlit("german");
        reveal_strlit("de");
        reveal_strlit("deu");
        reveal_strlit("ger");
        assert(known_languages()[12] == entry("german", "de", "deu", "ger"));
        assert(key("german"@) == 30092918);
        assert(key("de"@) == 208450);
        assert(key("deu"@) == 30879299);
        assert(key("ger"@) == 30092915);
    } else if i == 13 {
        reveal_strlit("greek");
        reveal_strlit("el");
        reveal_strlit("ell");
        reveal_strlit("gre");
        assert(known_languages()[13] == entry("greek", "el", "ell", "gre"));
        assert(key("greek"@) == 26711669);
        assert(key("el"@) == 222802);
        assert(key("ell"@) == 28534355);
        assert(key("gre"@) == 26711667);
    } else if i == 14 {
        reveal_strlit("hebrew");
        reveal_strlit("he");
        reveal_strlit("heb");
        assert(known_languages()[14] == entry("hebrew", "he", "heb", "heb"));
        assert(key("hebrew"@) == 25898630);
        assert(key("he"@) == 208514);
        assert(key("heb"@) == 25898627);
    } else if i == 15 {
        reveal_strlit("hindi");
        reveal_strlit("hi");
        reveal_strlit("hin");
        assert(known_languages()[15] == entry("hindi", "hi", "hin", "hin"));
        assert(key("hindi"@) == 29052549);
        assert(key("hi"@) == 216706);
        assert(key("hin"@) == 29052547);
    } else if i == 16 {
        reveal_strlit("hungarian");
        reveal_strlit("hu");
        reveal_strlit("hun");
        assert(known_languages()[16] == entry("hungarian", "hu", "hun", "hun"));
        assert(key("hungarian"@) == 29077129);
        assert(key("hu"@) == 241282);
        assert(key("hun"@) == 29077123);
    } else if i == 17 {
        reveal_strlit("icelandic");
        reveal_strlit("is");
        reveal_strlit("isl");
        reveal_strlit("ice");
        assert(known_languages()[17] == entry("icelandic", "is", "isl", "ice"));
        assert(key("icelandic"@) == 26680985);
        assert(key("is"@) == 237202);
        assert(key("isl"@) == 28548755);
        assert(key("ice"@) == 26680979);
    } else if i == 18 {
        reveal_strlit("indonesian");
        reveal_strlit("id");
        reveal_strlit("ind");
        assert(known_languages()[18] == entry("indonesian", "id", "ind", "ind"));
        assert(key("indonesian"@) == 26441370);
        assert(key("id"@) == 206482);
        assert(key("ind"@) == 26441363);
    } else if i == 19 {
        reveal_strlit("italian");
        reveal_strlit("it");
        reveal_strlit("ita");
        assert(known_languages()[19] == entry("italian", "it", "ita", "ita"));
        assert(key("italian"@) == 25667223);
        assert(key("it"@) == 239250);
        assert(key("ita"@) == 25667219);
    } else if i == 20 {
        reveal_strlit("japanese");
        reveal_strlit("ja");
        reveal_strlit("jpn");
        assert(known_languages()[20] == entry("japanese", "ja", "jpn", "jpn"));
        assert(key("japanese"@) == 29560488);
        assert(key("ja"@) == 200354);
        assert(key("jpn"@) == 29066915);
    } else if i == 21 {
        reveal_strlit("korean");
        reveal_strlit("ko");
        reveal_strlit("kor");
        assert(known_languages()[21] == entry("korean", "ko", "kor", "kor"));
        assert(key("korean"@) == 30113462);
        assert(key("ko"@) == 229042);
        assert(key("kor"@) == 30113459);
    }
}

proof fn lemma_rows_22_to_32(i: int, word: Seq<char>)
    requires
        22 <= i < 33,
        known_languages()[i].has(word),
    ensures
        row_of_key(key(word)) == i,
{
    if i == 22 {
        reveal_strlit("latvian");
        reveal_strlit("lv");
        reveal_strlit("lav");
        assert(known_languages()[22] == entry("latvian", "lv", "lav", "lav"));
        assert(key("latvian"@) == 30609095);
        assert(key("lv"@) == 243394);
        assert(key("lav"@) == 31133379);
    } else if i == 23 {
        reveal_strlit("lithuanian");
        reveal_strlit("lt");
        reveal_strlit("lit");
        assert(known_languages()[23] == entry("lithuanian", "lt", "lit", "lit"));
        assert(key("lithuanian"@) == 30625482);
        assert(key("lt"@) == 239298);
        assert(key("lit"@) == 30625475);
    } else if i == 24 {
        reveal_strlit("malay");
        reveal_strlit("ms");
        reveal_strlit("msa");
        reveal_strlit("may");
        assert(known_languages()[24] == entry("malay", "ms", "msa", "may"));
        assert(key("malay"@) == 28511957);
        assert(key("ms"@) == 237266);
        assert(key("msa"@) == 25665235);
        assert(key("may"@) == 31919827);
    } else if i == 25 {
        reveal_strlit("malayalam");
        reveal_strlit("ml");
        reveal_strlit("mal");
        assert(known_languages()[25] == entry("malayalam", "ml", "mal", "mal"));
        assert(key("malayalam"@) == 28511961);
        assert(key("ml"@) == 222930);
        assert(key("mal"@) == 28511955);
    } else if i == 26 {
        reveal_strlit("norwegian");
        reveal_strlit("no");
        reveal_strlit("nor");
        assert(known_languages()[26] == entry("norwegian", "no", "nor", "nor"));
        assert(key("norwegian"@) == 30113513);
        assert(key("no"@) == 229090);
        assert(key("nor"@) == 30113507);
    } else if i == 27 {
        reveal_strlit("persian");
        reveal_strlit("fa");
        reveal_strlit("fas");
        reveal_strlit("per");
        assert(known_languages()[27] == entry("persian", "fa", "fas", "per"));
        assert(key("persian"@) == 30093063);
        assert(key("fa"@) == 200290);
        assert(key("fas"@) == 30346851);
        assert(key("per"@) == 30093059);
    } else if i == 28 {
        reveal_strlit("polish");
        reveal_strlit("pl");
        reveal_strlit("pol");
        assert(known_languages()[28] == entry("polish", "pl", "pol", "pol"));
        assert(key("polish"@) == 28540678);
        assert(key("pl"@) == 222978);
        assert(key("pol"@) == 28540675);
    } else if i == 29 {
        reveal_strlit("portuguese");
        reveal_strlit("pt");
        reveal_strlit("por");
        assert(known_languages()[29] == entry("portuguese", "pt", "por", "por"));
        assert(key("portuguese"@) == 30113546);
        assert(key("pt"@) == 239362);
        assert(key("por"@) == 30113539);
    } else if i == 30 {
        reveal_strlit("romanian");
        reveal_strlit("ro");
        reveal_strlit("ron");
        reveal_strlit("rum");
        assert(known_languages()[30] == entry("romanian", "ro", "ron", "rum"));
        assert(key("romanian"@) == 28802856);
        assert(key("ro"@) == 229154);
        assert(key("ron"@) == 29064995);
        assert(key("rum"@) == 28815139);
    } else if i == 31 {
        reveal_strlit("russian");
        reveal_strlit("ru");
        reveal_strlit("rus");
        assert(known_languages()[31] == entry("russian", "ru", "rus", "rus"));
        assert(key("russian"@) == 30388007);
        assert(key("ru"@) == 241442);
        assert(key("rus"@) == 30388003);
    } else if i == 32 {
        reveal_strlit("serbian");
        reveal_strlit("sr");
        reveal_strlit("srp");
        assert(known_languages()[32] == entry("serbian", "sr", "srp", "srp"));
        assert(key("serbian"@) == 30093111);
        assert(key("sr"@) == 235314);
        assert(key("srp"@) == 29595443);
    }
}

proof fn lemma_rows_33_to_43(i: int, word: Seq<char>)
    requires
        33 <= i < 44,
        known_languages()[i].has(word),
    ensures
        row_of_key(key(word)) == i,
{
    if i == 33 {
        reveal_strlit("slovak");
        reveal_strlit("sk");
        reveal_strlit("slk");
        reveal_strlit("slo");
        assert(known_languages()[33] == entry("slovak", "sk", "slk", "slo"));
        assert(key("slovak"@) == 29321014);
        assert(key("sk"@) == 220978);
        assert(key("slk"@) == 28272435);
        assert(key("slo"@) == 29321011);
    } else if i == 34 {
        reveal_strlit("slovenian");
        reveal_strlit("sl");
        reveal_strlit("slv");
        assert(known_languages()[34] == entry("slovenian", "sl", "slv", "slv"));
        assert(key("slovenian"@) == 29321017);
        assert(key("sl"@) == 223026);
        assert(key("slv"@) == 31156019);
    } else if i == 35 {
        reveal_strlit("spanish");
        reveal_strlit("es");
        reveal_strlit("spa");
        assert(known_languages()[35] == entry("spanish", "es", "spa", "spa"));
        assert(key("spanish"@) == 25659191);
        assert(key("es"@) == 237138);
        assert(key("spa"@) == 25659187);
    } else if i == 36 {
        reveal_strlit("swedish");
        reveal_strlit("sv");
        reveal_strlit("swe");
        assert(known_languages()[36] == entry("swedish", "sv", "swe", "swe"));
        assert(key("swedish"@) == 26722103);
        assert(key("sv"@) == 243506);
        assert(key("swe"@) == 26722099);
    } else if i == 37 {
        reveal_strlit("tamil");
        reveal_strlit("ta");
        reveal_strlit("tam");
        assert(known_languages()[37] == entry("tamil", "ta", "tam", "tam"));
        assert(key("tamil"@) == 28774213);
        assert(key("ta"@) == 200514);
        assert(key("tam"@) == 28774211);
    } else if i == 38 {
        reveal_strlit("telugu");
        reveal_strlit("te");
        reveal_strlit("tel");
        assert(known_languages()[38] == entry("telugu", "te", "tel", "tel"));
        assert(key("telugu"@) == 28520262);
        assert(key("te"@) == 208706);
        assert(key("tel"@) == 28520259);
    } else if i == 39 {
        reveal_strlit("thai");
        reveal_strlit("th");
        reveal_strlit("tha");
        assert(known_languages()[39] == entry("thai", "th", "tha", "tha"));
        assert(key("thai"@) == 25642820);
        assert(key("th"@) == 214850);
        assert(key("tha"@) == 25642819);
    } else if i == 40 {
        reveal_strlit("turkish");
        reveal_strlit("tr");
        reveal_strlit("tur");
        assert(known_languages()[40] == entry("turkish", "tr", "tur", "tur"));
        assert(key("turkish"@) == 30125895);
        assert(key("tr"@) == 235330);
        assert(key("tur"@) == 30125891);
    } else if i == 41 {
        reveal_strlit("ukrainian");
        reveal_strlit("uk");
        reveal_strlit("ukr");
        assert(known_languages()[41] == entry("ukrainian", "uk", "ukr", "ukr"));
        assert(key("ukrainian"@) == 30105433);
        assert(key("uk"@) == 221010);
        assert(key("ukr"@) == 30105427);
    } else if i == 42 {
        reveal_strlit("vietnamese");
        reveal_strlit("vi");
        reveal_strlit("vie");
        assert(known_languages()[42] == entry("vietnamese", "vi", "vie", "vie"));
        assert(key("vietnamese"@) == 26693482);
        assert(key("vi"@) == 216930);
        assert(key("vie"@) == 26693475);
    } else if i == 43 {
        reveal_strlit("welsh");
        reveal_strlit("cy");
        reveal_strlit("cym");
        reveal_strlit("wel");
        assert(known_languages()[43] == entry("welsh", "cy", "cym", "wel"));
        assert(key("welsh"@) == 28520309);
        assert(key("cy"@) == 249394);
        assert(key("cym"@) == 28823091);
        assert(key("wel"@) == 28520307);
    }
}

/// No word means two languages.
pub proof fn law_words_mean_one_language(i: int, j: int, word: Seq<char>)
    requires
        0 <= i < known_languages().len(),
        0 <= j < known_languages().len(),
        known_languages()[i].has(word),
        known_languages()[j].has(word),
    ensures
        i == j,
{
    lemma_row(i, word);
    lemma_row(j, word);
}

proof fn lemma_row(i: int, word: Seq<char>)
    requires
        0 <= i < known_languages().len(),
        known_languages()[i].has(word),
    ensures
        row_of_key(key(word)) == i,
{
    if i < 11 {
        lemma_rows_0_to_10(i, word);
    } else if i < 22 {
        lemma_rows_11_to_21(i, word);
    } else if i < 33 {
        lemma_rows_22_to_32(i, word);
    } else {
        lemma_rows_33_to_43(i, word);
    }
}

/// A stream that is marked with a word of one language is not what is asked for by a word of
/// another.
pub proof fn law_languages_are_told_apart(i: int, j: int, mark: Seq<char>, wanted: Seq<char>)
    requires
        0 <= i < known_languages().len(),
        0 <= j < known_languages().len(),
        i != j,
        known_languages()[i].has(mark),
        known_languages()[j].has(wanted),
    ensures
        !is_in_language(mark, wanted),
{
    if same_language(mark, wanted) {
        let k = choose|k: int|
            0 <= k < known_languages().len() && (#[trigger] known_languages()[k]).has(mark)
                && known_languages()[k].has(wanted);
        law_words_mean_one_language(i, k, mark);
        law_words_mean_one_language(j, k, wanted);
    }
}

/// A word that is not known is compared by its beginning: a marked stream is what is asked for just
/// where one of the two words begins with the other.
pub proof fn law_unknown_words_go_by_their_beginnings(mark: Seq<char>, wanted: Seq<char>)
    requires
        mark.len() > 0,
        !is_known(mark) || !is_known(wanted),
    ensures
        wanted.is_prefix_of(mark) ==> is_in_language(mark, wanted),
        mark.is_prefix_of(wanted) ==> is_in_language(mark, wanted),
        is_in_language(mark, wanted) ==> forall|i: int|
            0 <= i < mark.len() && i < wanted.len() ==> mark[i] == #[trigger] wanted[i],
{
    if is_in_language(mark, wanted) {
        assert forall|i: int| 0 <= i < mark.len() && i < wanted.len() implies mark[i]
            == #[trigger] wanted[i] by {
            if wanted.is_prefix_of(mark) {
                assert(mark.subrange(0, wanted.len() as int)[i] == mark[i]);
            } else {
                assert(wanted.subrange(0, mark.len() as int)[i] == wanted[i]);
            }
        }
    }
}

/// A stream that is marked with the very word that is asked for is in that language.
pub proof fn law_same_word_is_the_language(word: Seq<char>)
    requires
        word.len() > 0,
    ensures
        is_in_language(word, word),
{
    if is_known(word) {
        let i = choose|i: int|
            0 <= i < known_languages().len() && (#[trigger] known_languages()[i]).has(word);
        assert(known_languages()[i].has(word));
    } else {
        assert(word.subrange(0, word.len() as int) =~= word);
    }
}

/// Every known language is meant by its name, by its code of two letters and by its codes of three.
pub proof fn law_every_word_of_a_language_is_known(i: int)
    requires
        0 <= i < known_languages().len(),
    ensures
        is_known(known_languages()[i].name@),
        is_known(known_languages()[i].short@),
        is_known(known_languages()[i].code@),
        is_known(known_languages()[i].other@),
        is_in_language(known_languages()[i].code@, known_languages()[i].name@),
        is_in_language(known_languages()[i].other@, known_languages()[i].name@),
        is_in_language(known_languages()[i].code@, known_languages()[i].short@),
        is_in_language(known_languages()[i].code@, known_languages()[i].other@),
        is_in_language(known_languages()[i].other@, known_languages()[i].code@),
{
    let l = known_languages()[i];
    assert(l.has(l.name@) && l.has(l.short@) && l.has(l.code@) && l.has(l.other@));
    law_any_word_asks_for_a_language(i, l.code@, l.name@);
    law_any_word_asks_for_a_language(i, l.other@, l.name@);
    law_any_word_asks_for_a_language(i, l.code@, l.short@);
    law_any_word_asks_for_a_language(i, l.code@, l.other@);
    law_any_word_asks_for_a_language(i, l.other@, l.code@);
}

} // verus!
