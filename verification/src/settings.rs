use vstd::prelude::*;

use crate::cache::settings_path;
use crate::file_info::path_view;
use crate::lang::{language_of, Language};
use crate::text::{
    chars_of, eq_lit, find_char, find_char_in, is_trimmed, is_white_space, join, join_strings,
    lemma_find_char_concat, lemma_join_lacks, lemma_join_trimmed, lemma_lines_acc_line,
    lemma_split_join, lemma_trim_trimmed, lines_acc, lines_in, lines_of, owned, push_str,
    split_chars, split_on, string_from_chars, strip_cr, sub_chars, trim, trim_chars,
};

verus! {

/// The colour scheme: following the system, light or dark.
#[derive(Debug, Clone, Copy, PartialEq, Eq, Structural)]
pub enum ThemeSetting {
    System,
    Light,
    Dark,
}

/// The theme a stored name stands for: "Light", "Dark", otherwise the system's.
pub open spec fn theme_of(s: Seq<char>) -> ThemeSetting {
    if s == "Light"@ {
        ThemeSetting::Light
    } else if s == "Dark"@ {
        ThemeSetting::Dark
    } else {
        ThemeSetting::System
    }
}

impl ThemeSetting {
    /// The name under which a theme is stored.
    pub open spec fn name_spec(self) -> Seq<char> {
        match self {
            ThemeSetting::System => "System"@,
            ThemeSetting::Light => "Light"@,
            ThemeSetting::Dark => "Dark"@,
        }
    }

    /// Reads a stored theme name; anything unknown means the system's theme.
    pub fn from_str(s: &str) -> (r: ThemeSetting)
        ensures
            r == theme_of(s@),
    {
        let cs = chars_of(s);
        if eq_lit(&cs, "Light") {
            ThemeSetting::Light
        } else if eq_lit(&cs, "Dark") {
            ThemeSetting::Dark
        } else {
            ThemeSetting::System
        }
    }

    /// The name under which the theme is stored.
    pub fn as_str(&self) -> (r: &'static str)
        ensures
            r@ == self.name_spec(),
    {
        match self {
            ThemeSetting::System => "System",
            ThemeSetting::Light => "Light",
            ThemeSetting::Dark => "Dark",
        }
    }
}

/// The user's settings.
#[derive(Debug)]
pub struct SettingsState {
    pub theme: ThemeSetting,
    pub language: Language,
    /// Names, folder names and extensions that selecting old files leaves alone.
    pub exclude_list: Vec<String>,
    /// The exclusion list as the user edits it, one pattern per line.
    pub exclude_input: String,
}

/// The value of the settings.
pub struct SettingsView {
    pub theme: ThemeSetting,
    pub language: Language,
    pub exclude_list: Seq<Seq<char>>,
    pub exclude_input: Seq<char>,
}

impl View for SettingsState {
    type V = SettingsView;

    open spec fn view(&self) -> SettingsView {
        SettingsView {
            theme: self.theme,
            language: self.language,
            exclude_list: self.exclude_list@.map_values(|s: String| s@),
            exclude_input: self.exclude_input@,
        }
    }
}

/// The exclusion list that settings start with.
pub open spec fn default_exclude_list() -> Seq<Seq<char>> {
    seq![".git"@, "node_modules"@, "target"@, ".idea"@, ".vscode"@, ".bak"@]
}

/// The settings before anything is read: the system's theme, Vietnamese, and the default
/// exclusion list, also shown one pattern per line.
pub open spec fn default_settings() -> SettingsView {
    SettingsView {
        theme: ThemeSetting::System,
        language: Language::Vietnamese,
        exclude_list: default_exclude_list(),
        exclude_input: join(default_exclude_list(), "\n"@),
    }
}

impl Default for SettingsState {
    /// The settings before anything is read.
    fn default() -> (r: SettingsState)
        ensures
            r@ == default_settings(),
    {
        let mut exclude_list: Vec<String> = Vec::new();
        exclude_list.push(owned(".git"));
        exclude_list.push(owned("node_modules"));
        exclude_list.push(owned("target"));
        exclude_list.push(owned(".idea"));
        exclude_list.push(owned(".vscode"));
        exclude_list.push(owned(".bak"));
        let exclude_input = join_strings(&exclude_list, "\n");
        let r = SettingsState {
            theme: ThemeSetting::System,
            language: Language::Vietnamese,
            exclude_input,
            exclude_list,
        };
        assert(r@.exclude_list =~= default_exclude_list());
        r
    }
}

/// The exclusion list stored as `value`: the comma-separated patterns, trimmed; none
/// when the value is empty.
pub open spec fn stored_exclude_list(value: Seq<char>) -> Seq<Seq<char>> {
    if value.len() > 0 {
        split_on(value, ',').map_values(|p: Seq<char>| trim(p))
    } else {
        Seq::empty()
    }
}

/// The settings after reading one line `key=value` of a settings file (key and value
/// trimmed; a line without `=` or with an unknown key changes nothing).
pub open spec fn apply_line(st: SettingsView, line: Seq<char>) -> SettingsView {
    match find_char(line, '=') {
        None => st,
        Some(i) => {
            let key = trim(line.take(i));
            let value = trim(line.skip(i + 1));
            if key == "theme"@ {
                SettingsView { theme: theme_of(value), ..st }
            } else if key == "language"@ {
                SettingsView { language: language_of(value), ..st }
            } else if key == "exclude_list"@ {
                let list = stored_exclude_list(value);
                SettingsView { exclude_list: list, exclude_input: join(list, "\n"@), ..st }
            } else {
                st
            }
        },
    }
}

/// The settings after reading the lines in order.
pub open spec fn apply_lines(st: SettingsView, lines: Seq<Seq<char>>) -> SettingsView
    decreases lines.len(),
{
    if lines.len() == 0 {
        st
    } else {
        apply_lines(apply_line(st, lines[0]), lines.skip(1))
    }
}

/// The settings a settings file holds, starting from the defaults.
pub open spec fn parse_settings(content: Seq<char>) -> SettingsView {
    apply_lines(default_settings(), lines_of(content))
}

/// The settings file for `st`: one `key=value` line each for the theme, the language and
/// the comma-separated exclusion list.
pub open spec fn settings_text(st: SettingsView) -> Seq<char> {
    "theme="@ + st.theme.name_spec() + "\n"@ + "language="@ + st.language.name_spec() + "\n"@
        + "exclude_list="@ + join(st.exclude_list, ","@) + "\n"@
}

impl SettingsState {
    /// Where the settings are kept: `settings.ini` beside the program, in the folder
    /// `exe_dir` that holds the executable (see `settings_path`).
    pub fn get_settings_path(exe_dir: &Vec<String>) -> (r: Vec<String>)
        ensures
            path_view(r@) == path_view(exe_dir@).push("settings.ini"@),
    {
        settings_path(exe_dir)
    }

    /// Reads the settings from the text of a settings file (see `parse_settings`).
    pub fn parse(content: &str) -> (r: SettingsState)
        ensures
            r@ == parse_settings(content@),
    {
        let mut state = SettingsState::default();
        let cs = chars_of(content);
        let lines = lines_in(&cs);
        let ghost ls = lines@.map_values(|v: Vec<char>| v@);
        assert(ls.skip(0) =~= ls);
        for i in 0..lines.len()
            invariant
                ls == lines@.map_values(|v: Vec<char>| v@),
                ls == lines_of(cs@),
                cs@ == content@,
                apply_lines(state@, ls.skip(i as int)) == parse_settings(content@),
        {
            assert(ls.skip(i as int).skip(1) =~= ls.skip(i + 1));
            assert(ls.skip(i as int)[0] == lines@[i as int]@);
            state.apply_line(&lines[i]);
        }
        state
    }

    /// Applies one line of a settings file (see `apply_line`).
    pub fn apply_line(&mut self, line: &Vec<char>)
        ensures
            final(self)@ == apply_line(old(self)@, line@),
    {
        match find_char_in(line, '=') {
            None => {},
            Some(i) => {
                assert(line@.len() == line.len());
                let key_raw = sub_chars(line, 0, i);
                let key = trim_chars(&key_raw);
                let value_raw = sub_chars(line, i + 1, line.len());
                let value_chars = trim_chars(&value_raw);
                assert(key_raw@ =~= line@.take(i as int));
                assert(value_raw@ =~= line@.skip(i + 1));
                let value = string_from_chars(&value_chars);
                if eq_lit(&key, "theme") {
                    self.theme = ThemeSetting::from_str(value.as_str());
                } else if eq_lit(&key, "language") {
                    self.language = Language::from_str(value.as_str());
                } else if eq_lit(&key, "exclude_list") {
                    if value_chars.len() > 0 {
                        let pieces = split_chars(&value_chars, ',');
                        let ghost pv = pieces@.map_values(|v: Vec<char>| v@);
                        let mut list: Vec<String> = Vec::new();
                        for k in 0..pieces.len()
                            invariant
                                pv == pieces@.map_values(|v: Vec<char>| v@),
                                list@.map_values(|s: String| s@) == pv.take(k as int).map_values(
                                    |p: Seq<char>| trim(p),
                                ),
                        {
                            let t = trim_chars(&pieces[k]);
                            let ghost before = list@;
                            let st = string_from_chars(&t);
                            list.push(st);
                            assert(list@ == before.push(st));
                            assert(pv[k as int] == pieces@[k as int]@);
                            assert(pv.take(k + 1) =~= pv.take(k as int).push(pv[k as int]));
                            assert(list@.map_values(|s: String| s@) =~= before.map_values(|s: String| s@).push(st@));
                            assert(list@.map_values(|s: String| s@) =~= pv.take(k + 1).map_values(
                                |p: Seq<char>| trim(p),
                            ));
                        }
                        assert(pv.take(pv.len() as int) =~= pv);
                        self.exclude_input = join_strings(&list, "\n");
                        self.exclude_list = list;
                    } else {
                        self.exclude_list = Vec::new();
                        self.exclude_input = String::new();
                        assert(self@.exclude_list =~= Seq::<Seq<char>>::empty());
                    }
                }
            },
        }
    }

    /// The text of the settings file for these settings (see `settings_text`).
    pub fn to_ini(&self) -> (r: String)
        ensures
            r@ == settings_text(self@),
    {
        let mut out = String::new();
        push_str(&mut out, "theme=");
        push_str(&mut out, self.theme.as_str());
        push_str(&mut out, "\n");
        push_str(&mut out, "language=");
        push_str(&mut out, self.language.as_str());
        push_str(&mut out, "\n");
        push_str(&mut out, "exclude_list=");
        let joined = join_strings(&self.exclude_list, ",");
        push_str(&mut out, joined.as_str());
        push_str(&mut out, "\n");
        out
    }
}

/// What an exclusion pattern must be for the settings file to keep it: not empty,
/// without white space at its ends, and without a comma or a line break.
pub open spec fn storable_pattern(p: Seq<char>) -> bool {
    &&& p.len() > 0
    &&& is_trimmed(p)
    &&& !p.contains(',')
    &&& !p.contains('\n')
}

/// A line `key=value` is read as that key and that value.
proof fn lemma_key_value_line(key: Seq<char>, value: Seq<char>)
    requires
        key.len() > 0,
        is_trimmed(key),
        !key.contains('='),
        is_trimmed(value),
    ensures
        find_char(key + seq!['='] + value, '=') == Some(key.len() as int),
        trim((key + seq!['='] + value).take(key.len() as int)) == key,
        trim((key + seq!['='] + value).skip(key.len() as int + 1)) == value,
{
    let line = key + seq!['='] + value;
    assert(line =~= key + (seq!['='] + value));
    lemma_find_char_concat(key, seq!['='] + value, '=');
    assert(line.take(key.len() as int) =~= key);
    assert(line.skip(key.len() as int + 1) =~= value);
    lemma_trim_trimmed(key);
    lemma_trim_trimmed(value);
}

/// A short text with no line break, no `=`, no carriage return and no white space.
pub open spec fn plain_word(w: Seq<char>) -> bool {
    &&& w.len() > 0
    &&& forall|i: int| 0 <= i < w.len() ==> !is_white_space(#[trigger] w[i]) && w[i] != '=' && w[i] != '\n'
}

proof fn lemma_plain_word(w: Seq<char>)
    requires
        plain_word(w),
    ensures
        is_trimmed(w),
        !w.contains('='),
        !w.contains('\n'),
        !w.contains('\r'),
{
    assert(is_white_space('\r'));
    if w.contains('\r') {
        let k = choose|k: int| 0 <= k < w.len() && w[k] == '\r';
        assert(!is_white_space(w[k]));
    }
}

proof fn lemma_names_plain(t: ThemeSetting, l: Language)
    ensures
        plain_word(t.name_spec()),
        plain_word(l.name_spec()),
        plain_word("theme"@),
        plain_word("language"@),
        plain_word("exclude_list"@),
        theme_of(t.name_spec()) == t,
        language_of(l.name_spec()) == l,
        "theme="@ == "theme"@ + seq!['='],
        "language="@ == "language"@ + seq!['='],
        "exclude_list="@ == "exclude_list"@ + seq!['='],
        "\n"@ == seq!['\n'],
        ","@ == seq![','],
{
    reveal_strlit("System");
    reveal_strlit("Light");
    reveal_strlit("Dark");
    reveal_strlit("Vietnamese");
    reveal_strlit("English");
    reveal_strlit("theme");
    reveal_strlit("language");
    reveal_strlit("exclude_list");
    reveal_strlit("theme=");
    reveal_strlit("language=");
    reveal_strlit("exclude_list=");
    reveal_strlit("\n");
    reveal_strlit(",");
    assert("System"@.len() == 6 && "Light"@.len() == 5 && "Dark"@.len() == 4);
    assert("Vietnamese"@.len() == 10 && "English"@.len() == 7);
    assert("System"@ != "Light"@ && "System"@ != "Dark"@);
    assert("Vietnamese"@ != "English"@);
    assert("theme="@ =~= "theme"@ + seq!['=']);
    assert("language="@ =~= "language"@ + seq!['=']);
    assert("exclude_list="@ =~= "exclude_list"@ + seq!['=']);
    assert("\n"@ =~= seq!['\n']);
    assert(","@ =~= seq![',']);
}

/// Writing settings to a file and reading the file back gives the same theme, language
/// and exclusion list, provided each pattern can be stored (`storable_pattern`); the list
/// as edited becomes the patterns one per line.
pub proof fn lemma_settings_round_trip(st: SettingsView)
    requires
        forall|i: int| 0 <= i < st.exclude_list.len() ==> storable_pattern(#[trigger] st.exclude_list[i]),
    ensures
        parse_settings(settings_text(st)) == (SettingsView {
            exclude_input: join(st.exclude_list, "\n"@),
            ..st
        }),
{
    lemma_names_plain(st.theme, st.language);
    let tn = st.theme.name_spec();
    let ln = st.language.name_spec();
    lemma_plain_word(tn);
    lemma_plain_word(ln);
    lemma_plain_word("theme"@);
    lemma_plain_word("language"@);
    lemma_plain_word("exclude_list"@);
    let list = st.exclude_list;
    let j = join(list, ","@);
    assert forall|i: int| 0 <= i < list.len() implies !(#[trigger] list[i]).contains('\n') by {
        assert(storable_pattern(list[i]));
    }
    assert forall|i: int| 0 <= i < list.len() implies !(#[trigger] list[i]).contains(',') by {
        assert(storable_pattern(list[i]));
    }
    lemma_join_lacks(list, ","@, '\n');
    let a = "theme"@ + seq!['='] + tn;
    let b = "language"@ + seq!['='] + ln;
    let c = "exclude_list"@ + seq!['='] + j;
    let text = settings_text(st);
    assert(text =~= a + seq!['\n'] + (b + seq!['\n'] + (c + seq!['\n'] + Seq::<char>::empty())));
    // the three lines
    assert(!a.contains('\n')) by {
        if a.contains('\n') {
            let k = choose|k: int| 0 <= k < a.len() && a[k] == '\n';
            if k < 5 { assert("theme"@[k] == '\n'); } else if k > 5 { assert(tn[k - 6] == '\n'); }
        }
    }
    assert(!b.contains('\n')) by {
        if b.contains('\n') {
            let k = choose|k: int| 0 <= k < b.len() && b[k] == '\n';
            if k < 8 { assert("language"@[k] == '\n'); } else if k > 8 { assert(ln[k - 9] == '\n'); }
        }
    }
    assert(!c.contains('\n')) by {
        if c.contains('\n') {
            let k = choose|k: int| 0 <= k < c.len() && c[k] == '\n';
            if k < 12 { assert("exclude_list"@[k] == '\n'); } else if k > 12 { assert(j[k - 13] == '\n'); }
        }
    }
    let rest1 = b + seq!['\n'] + (c + seq!['\n'] + Seq::<char>::empty());
    let rest2 = c + seq!['\n'] + Seq::<char>::empty();
    lemma_lines_acc_line(a, rest1, Seq::empty());
    lemma_lines_acc_line(b, rest2, Seq::empty());
    lemma_lines_acc_line(c, Seq::<char>::empty(), Seq::empty());
    assert(Seq::<char>::empty() + a =~= a);
    assert(Seq::<char>::empty() + b =~= b);
    assert(Seq::<char>::empty() + c =~= c);
    assert(a.last() == tn.last());
    assert(b.last() == ln.last());
    assert(strip_cr(a) == a);
    assert(strip_cr(b) == b);
    // the value of the exclusion line
    if list.len() > 0 {
        lemma_join_trimmed(list, ","@);
        assert(c.last() == j.last());
        lemma_split_join(list, ',');
        assert forall|i: int| 0 <= i < list.len() implies trim(#[trigger] list[i]) == list[i] by {
            assert(storable_pattern(list[i]));
            lemma_trim_trimmed(list[i]);
        }
        assert(split_on(j, ',').map_values(|p: Seq<char>| trim(p)) =~= list);
    } else {
        assert(j == Seq::<char>::empty());
        assert(c.last() == '=');
    }
    assert(is_white_space('\r'));
    assert(strip_cr(c) == c);
    assert(lines_acc(Seq::<char>::empty(), Seq::empty()) == Seq::<Seq<char>>::empty());
    assert(lines_of(text) =~= seq![a, b, c]);
    assert(is_trimmed(j)) by {
        if list.len() > 0 {
            lemma_join_trimmed(list, ","@);
        }
    }
    lemma_key_value_line("theme"@, tn);
    lemma_key_value_line("language"@, ln);
    lemma_key_value_line("exclude_list"@, j);
    reveal_strlit("theme");
    reveal_strlit("language");
    reveal_strlit("exclude_list");
    let s1 = apply_line(default_settings(), a);
    let s2 = apply_line(s1, b);
    let s3 = apply_line(s2, c);
    assert(stored_exclude_list(j) == list) by {
        if list.len() > 0 {
            lemma_join_trimmed(list, ","@);
        }
    }
    reveal_with_fuel(apply_lines, 4);
    assert(seq![a, b, c].skip(1) =~= seq![b, c]);
    assert(seq![b, c].skip(1) =~= seq![c]);
    assert(seq![c].skip(1) =~= Seq::<Seq<char>>::empty());
    assert(apply_lines(default_settings(), seq![a, b, c]) == s3);
}

/// The patterns typed into the exclusion box: split at line breaks and commas, trimmed,
/// empty ones left out.
pub open spec fn typed_patterns(input: Seq<char>) -> Seq<Seq<char>> {
    split_on(input.map_values(|c: char| if c == '\n' { ',' } else { c }), ',').map_values(
        |p: Seq<char>| trim(p),
    ).filter(|p: Seq<char>| p.len() > 0)
}

/// Reads the exclusion list as typed (see `typed_patterns`).
pub fn parse_exclude_input(input: &str) -> (r: Vec<String>)
    ensures
        r@.map_values(|s: String| s@) == typed_patterns(input@),
{
    let cs = chars_of(input);
    let mut norm: Vec<char> = Vec::new();
    for i in 0..cs.len()
        invariant
            norm@ == cs@.take(i as int).map_values(|c: char| if c == '\n' { ',' } else { c }),
    {
        let c = cs[i];
        norm.push(if c == '\n' { ',' } else { c });
        assert(norm@ =~= cs@.take(i + 1).map_values(|c: char| if c == '\n' { ',' } else { c }));
    }
    assert(cs@.take(cs@.len() as int) =~= cs@);
    let pieces = split_chars(&norm, ',');
    let ghost trimmed = pieces@.map_values(|v: Vec<char>| v@).map_values(|p: Seq<char>| trim(p));
    let mut out: Vec<String> = Vec::new();
    for k in 0..pieces.len()
        invariant
            trimmed == pieces@.map_values(|v: Vec<char>| v@).map_values(|p: Seq<char>| trim(p)),
            trimmed.len() == pieces@.len(),
            out@.map_values(|s: String| s@) == trimmed.take(k as int).filter(|p: Seq<char>| p.len() > 0),
    {
        let t = trim_chars(&pieces[k]);
        proof {
            assert(trimmed[k as int] == t@);
            assert(trimmed.take(k + 1).drop_last() =~= trimmed.take(k as int));
            assert(trimmed.take(k + 1).last() == t@);
            trimmed.take(k as int).lemma_filter_push(t@, |p: Seq<char>| p.len() > 0);
            assert(trimmed.take(k + 1) =~= trimmed.take(k as int).push(t@));
        }
        if t.len() > 0 {
            let ghost before = out@;
            let st = string_from_chars(&t);
            out.push(st);
            assert(out@.map_values(|s: String| s@) =~= before.map_values(|s: String| s@).push(st@));
        }
    }
    assert(trimmed.take(trimmed.len() as int) =~= trimmed);
    out
}

/// Reading back the name a theme is stored under gives the same theme.
pub proof fn lemma_theme_name_round_trip(t: ThemeSetting)
    ensures
        theme_of(t.name_spec()) == t,
{
    lemma_names_plain(t, Language::Vietnamese);
}

/// Reading back the name a language is stored under gives the same language.
pub proof fn lemma_language_name_round_trip(l: Language)
    ensures
        language_of(l.name_spec()) == l,
{
    lemma_names_plain(ThemeSetting::System, l);
}

} // verus!
