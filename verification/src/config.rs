use vstd::prelude::*;

verus! {

/// The color themes of the application.
#[derive(Debug, Clone, Copy, PartialEq, Eq, Structural)]
pub enum AppTheme {
    GitHubLight,
    GitHubDark,
    Light,
    Dark,
    Dracula,
    Nord,
    SolarizedLight,
    SolarizedDark,
    GruvboxLight,
    GruvboxDark,
    CatppuccinLatte,
    CatppuccinFrappe,
    CatppuccinMacchiato,
    CatppuccinMocha,
    TokyoNight,
    TokyoNightStorm,
    TokyoNightLight,
    KanagawaWave,
    KanagawaDragon,
    KanagawaLotus,
    Moonfly,
    Nightfly,
    Oxocarbon,
    Ferra,
}

/// The light themes, in the order the settings list them.
pub open spec fn light_themes() -> Seq<AppTheme> {
    seq![
        AppTheme::GitHubLight,
        AppTheme::Light,
        AppTheme::SolarizedLight,
        AppTheme::GruvboxLight,
        AppTheme::CatppuccinLatte,
        AppTheme::TokyoNightLight,
        AppTheme::KanagawaLotus,
    ]
}

/// The dark themes, in the order the settings list them.
pub open spec fn dark_themes() -> Seq<AppTheme> {
    seq![
        AppTheme::GitHubDark,
        AppTheme::Dark,
        AppTheme::Dracula,
        AppTheme::Nord,
        AppTheme::SolarizedDark,
        AppTheme::GruvboxDark,
        AppTheme::CatppuccinFrappe,
        AppTheme::CatppuccinMacchiato,
        AppTheme::CatppuccinMocha,
        AppTheme::TokyoNight,
        AppTheme::TokyoNightStorm,
        AppTheme::KanagawaWave,
        AppTheme::KanagawaDragon,
        AppTheme::Moonfly,
        AppTheme::Nightfly,
        AppTheme::Oxocarbon,
        AppTheme::Ferra,
    ]
}

/// A theme is dark unless it is one of the light themes.
pub open spec fn theme_is_dark(t: AppTheme) -> bool {
    !(t == AppTheme::GitHubLight || t == AppTheme::Light || t == AppTheme::SolarizedLight || t
        == AppTheme::GruvboxLight || t == AppTheme::CatppuccinLatte || t == AppTheme::TokyoNightLight
        || t == AppTheme::KanagawaLotus)
}

/// The name of a theme as the settings show it.
pub open spec fn theme_name(t: AppTheme) -> Seq<char> {
    match t {
        AppTheme::GitHubLight => "GitHub Light"@,
        AppTheme::GitHubDark => "GitHub Dark"@,
        AppTheme::Light => "Light"@,
        AppTheme::Dark => "Dark"@,
        AppTheme::Dracula => "Dracula"@,
        AppTheme::Nord => "Nord"@,
        AppTheme::SolarizedLight => "Solarized Light"@,
        AppTheme::SolarizedDark => "Solarized Dark"@,
        AppTheme::GruvboxLight => "Gruvbox Light"@,
        AppTheme::GruvboxDark => "Gruvbox Dark"@,
        AppTheme::CatppuccinLatte => "Catppuccin Latte"@,
        AppTheme::CatppuccinFrappe => "Catppuccin Frappé"@,
        AppTheme::CatppuccinMacchiato => "Catppuccin Macchiato"@,
        AppTheme::CatppuccinMocha => "Catppuccin Mocha"@,
        AppTheme::TokyoNight => "Tokyo Night"@,
        AppTheme::TokyoNightStorm => "Tokyo Night Storm"@,
        AppTheme::TokyoNightLight => "Tokyo Night Light"@,
        AppTheme::KanagawaWave => "Kanagawa Wave"@,
        AppTheme::KanagawaDragon => "Kanagawa Dragon"@,
        AppTheme::KanagawaLotus => "Kanagawa Lotus"@,
        AppTheme::Moonfly => "Moonfly"@,
        AppTheme::Nightfly => "Nightfly"@,
        AppTheme::Oxocarbon => "Oxocarbon"@,
        AppTheme::Ferra => "Ferra"@,
    }
}

impl Default for AppTheme {
    /// GitHub Dark.
    fn default() -> (t: Self)
        ensures
            t == AppTheme::GitHubDark,
    {
        AppTheme::GitHubDark
    }
}

impl AppTheme {
    /// Whether the theme has a dark background.
    pub fn is_dark(self) -> (b: bool)
        ensures
            b == theme_is_dark(self),
    {
        !matches!(
            self,
            AppTheme::GitHubLight | AppTheme::Light | AppTheme::SolarizedLight | AppTheme::GruvboxLight
                | AppTheme::CatppuccinLatte | AppTheme::TokyoNightLight | AppTheme::KanagawaLotus
        )
    }

    /// The name of the theme as the settings show it.
    pub fn display_name(self) -> (r: &'static str)
        ensures
            r@ == theme_name(self),
    {
        match self {
            AppTheme::GitHubLight => "GitHub Light",
            AppTheme::GitHubDark => "GitHub Dark",
            AppTheme::Light => "Light",
            AppTheme::Dark => "Dark",
            AppTheme::Dracula => "Dracula",
            AppTheme::Nord => "Nord",
            AppTheme::SolarizedLight => "Solarized Light",
            AppTheme::SolarizedDark => "Solarized Dark",
            AppTheme::GruvboxLight => "Gruvbox Light",
            AppTheme::GruvboxDark => "Gruvbox Dark",
            AppTheme::CatppuccinLatte => "Catppuccin Latte",
            AppTheme::CatppuccinFrappe => "Catppuccin Frappé",
            AppTheme::CatppuccinMacchiato => "Catppuccin Macchiato",
            AppTheme::CatppuccinMocha => "Catppuccin Mocha",
            AppTheme::TokyoNight => "Tokyo Night",
            AppTheme::TokyoNightStorm => "Tokyo Night Storm",
            AppTheme::TokyoNightLight => "Tokyo Night Light",
            AppTheme::KanagawaWave => "Kanagawa Wave",
            AppTheme::KanagawaDragon => "Kanagawa Dragon",
            AppTheme::KanagawaLotus => "Kanagawa Lotus",
            AppTheme::Moonfly => "Moonfly",
            AppTheme::Nightfly => "Nightfly",
            AppTheme::Oxocarbon => "Oxocarbon",
            AppTheme::Ferra => "Ferra",
        }
    }

    /// The light themes, in the order the settings list them.
    pub fn all_light() -> (r: Vec<AppTheme>)
        ensures
            r@ == light_themes(),
    {
        let r = vec![
            AppTheme::GitHubLight,
            AppTheme::Light,
            AppTheme::SolarizedLight,
            AppTheme::GruvboxLight,
            AppTheme::CatppuccinLatte,
            AppTheme::TokyoNightLight,
            AppTheme::KanagawaLotus,
        ];
        proof {
            assert(r@ =~= light_themes());
        }
        r
    }

    /// The dark themes, in the order the settings list them.
    pub fn all_dark() -> (r: Vec<AppTheme>)
        ensures
            r@ == dark_themes(),
    {
        let r = vec![
            AppTheme::GitHubDark,
            AppTheme::Dark,
            AppTheme::Dracula,
            AppTheme::Nord,
            AppTheme::SolarizedDark,
            AppTheme::GruvboxDark,
            AppTheme::CatppuccinFrappe,
            AppTheme::CatppuccinMacchiato,
            AppTheme::CatppuccinMocha,
            AppTheme::TokyoNight,
            AppTheme::TokyoNightStorm,
            AppTheme::KanagawaWave,
            AppTheme::KanagawaDragon,
            AppTheme::Moonfly,
            AppTheme::Nightfly,
            AppTheme::Oxocarbon,
            AppTheme::Ferra,
        ];
        proof {
            assert(r@ =~= dark_themes());
        }
        r
    }
}

/// Every theme is listed exactly once, among the light themes when it is not dark and
/// among the dark themes when it is.
pub proof fn lemma_theme_lists_partition(t: AppTheme)
    ensures
        light_themes().contains(t) <==> !theme_is_dark(t),
        dark_themes().contains(t) <==> theme_is_dark(t),
        light_themes().no_duplicates(),
        dark_themes().no_duplicates(),
{
    let l = light_themes();
    let d = dark_themes();
    match t {
        AppTheme::GitHubLight => assert(l[0] == t),
        AppTheme::GitHubDark => assert(d[0] == t),
        AppTheme::Light => assert(l[1] == t),
        AppTheme::Dark => assert(d[1] == t),
        AppTheme::Dracula => assert(d[2] == t),
        AppTheme::Nord => assert(d[3] == t),
        AppTheme::SolarizedLight => assert(l[2] == t),
        AppTheme::SolarizedDark => assert(d[4] == t),
        AppTheme::GruvboxLight => assert(l[3] == t),
        AppTheme::GruvboxDark => assert(d[5] == t),
        AppTheme::CatppuccinLatte => assert(l[4] == t),
        AppTheme::CatppuccinFrappe => assert(d[6] == t),
        AppTheme::CatppuccinMacchiato => assert(d[7] == t),
        AppTheme::CatppuccinMocha => assert(d[8] == t),
        AppTheme::TokyoNight => assert(d[9] == t),
        AppTheme::TokyoNightStorm => assert(d[10] == t),
        AppTheme::TokyoNightLight => assert(l[5] == t),
        AppTheme::KanagawaWave => assert(d[11] == t),
        AppTheme::KanagawaDragon => assert(d[12] == t),
        AppTheme::KanagawaLotus => assert(l[6] == t),
        AppTheme::Moonfly => assert(d[13] == t),
        AppTheme::Nightfly => assert(d[14] == t),
        AppTheme::Oxocarbon => assert(d[15] == t),
        AppTheme::Ferra => assert(d[16] == t),
    }
}

/// The light theme used when the settings name none.
pub fn default_light_theme() -> (t: AppTheme)
    ensures
        t == AppTheme::GitHubLight,
{
    AppTheme::GitHubLight
}

/// The dark theme used when the settings name none.
pub fn default_dark_theme() -> (t: AppTheme)
    ensures
        t == AppTheme::GitHubDark,
{
    AppTheme::GitHubDark
}

/// The theme the user asked for: dark, light, or whatever the system uses.
#[derive(Debug, Clone, Copy, PartialEq, Eq, Structural)]
pub enum ThemePreference {
    Dark,
    Light,
    System,
}

} // verus!

verus! {

/// The most recent repositories that the settings remember.
pub const MAX_RECENT_REPOS: usize = 20;

/// `s` without the occurrences of `p`, the rest in order.
pub open spec fn without(s: Seq<Seq<char>>, p: Seq<char>) -> Seq<Seq<char>>
    decreases s.len(),
{
    if s.len() == 0 {
        Seq::empty()
    } else if s.last() == p {
        without(s.drop_last(), p)
    } else {
        without(s.drop_last(), p).push(s.last())
    }
}

/// The recent repositories after opening `p`: `p` first, then the others in their order,
/// at most `MAX_RECENT_REPOS` of them.
pub open spec fn recent_after(s: Seq<Seq<char>>, p: Seq<char>) -> Seq<Seq<char>> {
    let all = seq![p] + without(s, p);
    if all.len() > MAX_RECENT_REPOS {
        all.take(MAX_RECENT_REPOS as int)
    } else {
        all
    }
}

/// Moves `repo_path` to the front of the recent repositories, keeping at most
/// `MAX_RECENT_REPOS`.
pub fn push_recent_repo(recent_repos: &mut Vec<String>, repo_path: &str)
    ensures
        crate::git::cli::string_views(final(recent_repos)@) == recent_after(
            crate::git::cli::string_views(old(recent_repos)@),
            repo_path@,
        ),
{
    let p = repo_path.to_owned();
    let mut out: Vec<String> = Vec::new();
    out.push(p.clone());
    let ghost olds = crate::git::cli::string_views(recent_repos@);
    let mut i: usize = 0;
    proof {
        assert(olds.take(0) =~= Seq::<Seq<char>>::empty());
        assert(crate::git::cli::string_views(out@) =~= seq![p@] + without(olds.take(0), p@));
    }
    while i < recent_repos.len()
        invariant
            olds == crate::git::cli::string_views(recent_repos@),
            i <= recent_repos@.len(),
            p@ == repo_path@,
            crate::git::cli::string_views(out@) == seq![p@] + without(olds.take(i as int), p@),
        decreases recent_repos@.len() - i,
    {
        let ghost before = crate::git::cli::string_views(out@);
        proof {
            assert(olds.take(i + 1).drop_last() =~= olds.take(i as int));
            assert(olds.take(i + 1).last() == recent_repos@[i as int]@);
        }
        if recent_repos[i] != p {
            out.push(recent_repos[i].clone());
            proof {
                assert(crate::git::cli::string_views(out@) =~= before.push(recent_repos@[i as int]@));
            }
        }
        i = i + 1;
    }
    proof {
        assert(olds.take(i as int) =~= olds);
    }
    let ghost full = crate::git::cli::string_views(out@);
    out.truncate(MAX_RECENT_REPOS);
    proof {
        if full.len() > MAX_RECENT_REPOS {
            assert(crate::git::cli::string_views(out@) =~= full.take(MAX_RECENT_REPOS as int));
        }
    }
    *recent_repos = out;
}

/// The UTF-8 bytes of the settings file's name.
pub open spec fn settings_file_name() -> Seq<u8> {
    vstd::utf8::encode_utf8("settings.toml"@)
}

/// Whether `s` ends with `suffix`.
pub open spec fn ends_with_bytes(s: Seq<u8>, suffix: Seq<u8>) -> bool {
    suffix.len() <= s.len() && s.skip(s.len() - suffix.len()) == suffix
}

/// `name` appended to the directory `dir`, with the platform's separator `sep` between
/// them unless `dir` is empty or already ends with `/` or with `sep` (`/` separates path
/// components on every platform).
pub open spec fn path_join(dir: Seq<u8>, sep: Seq<u8>, name: Seq<u8>) -> Seq<u8> {
    if dir.len() == 0 || dir.last() == 47u8 || ends_with_bytes(dir, sep) {
        dir + name
    } else {
        dir + sep + name
    }
}

/// The message when no configuration directory is known.
pub open spec fn config_dir_error() -> Seq<char> {
    "failed to determine platform config directories"@
}

/// Calls `directories::ProjectDirs::from` and hands back the encoded bytes of its
/// `config_dir()`, or `None` when `ProjectDirs::from` finds no home directory. The
/// directory depends on the platform and on the environment (the home directory,
/// `XDG_CONFIG_HOME`), so nothing is claimed of it.
#[verifier::external_body]
fn project_config_dir(qualifier: &str, organization: &str, application: &str) -> (r: Option<Vec<u8>>) {
    match directories::ProjectDirs::from(qualifier, organization, application) {
        Some(dirs) => Some(dirs.config_dir().as_os_str().as_encoded_bytes().to_vec()),
        None => None,
    }
}

/// The platform's primary separator of path components: `std::path::MAIN_SEPARATOR_STR`.
/// Which text that is depends on the platform the program is built for, so nothing is
/// claimed of it.
#[verifier::external_body]
fn main_separator() -> (r: &'static str) {
    std::path::MAIN_SEPARATOR_STR
}

fn ends_with_exec(s: &Vec<u8>, suffix: &[u8]) -> (b: bool)
    ensures
        b == ends_with_bytes(s@, suffix@),
{
    if suffix.len() > s.len() {
        return false;
    }
    let off = s.len() - suffix.len();
    let mut i: usize = 0;
    while i < suffix.len()
        invariant
            off + suffix@.len() == s@.len(),
            off + suffix@.len() <= usize::MAX,
            i <= suffix@.len(),
            forall|k: int| 0 <= k < i ==> s@[off + k] == suffix@[k],
        decreases suffix@.len() - i,
    {
        if s[off + i] != suffix[i] {
            proof {
                assert(s@.skip(off as int)[i as int] != suffix@[i as int]);
            }
            return false;
        }
        i = i + 1;
    }
    proof {
        assert(s@.skip(off as int) =~= suffix@);
    }
    true
}

/// The settings file in the configuration directory `config_dir`, joined with the
/// separator `separator`, or the error when there is no directory.
pub fn settings_file_in(config_dir: Option<Vec<u8>>, separator: &str) -> (r: Result<Vec<u8>, String>)
    ensures
        match config_dir {
            Some(d) => r is Ok && r->Ok_0@ == path_join(
                d@,
                vstd::utf8::encode_utf8(separator@),
                settings_file_name(),
            ),
            None => r is Err && r->Err_0@ == config_dir_error(),
        },
{
    match config_dir {
        Some(dir) => {
            let name = "settings.toml".as_bytes();
            let sep = separator.as_bytes();
            let mut path = dir;
            let n = path.len();
            if n > 0 && path[n - 1] != 47u8 && !ends_with_exec(&path, sep) {
                let ghost before = path@;
                let mut j: usize = 0;
                while j < sep.len()
                    invariant
                        j <= sep@.len(),
                        path@ == before + sep@.take(j as int),
                    decreases sep@.len() - j,
                {
                    path.push(sep[j]);
                    proof {
                        assert(sep@.take(j + 1) =~= sep@.take(j as int).push(sep@[j as int]));
                    }
                    j = j + 1;
                }
                proof {
                    assert(sep@.take(j as int) =~= sep@);
                }
            }
            let ghost base = path@;
            let mut i: usize = 0;
            while i < name.len()
                invariant
                    i <= name@.len(),
                    name@ == settings_file_name(),
                    path@ == base + name@.take(i as int),
                decreases name@.len() - i,
            {
                path.push(name[i]);
                proof {
                    assert(name@.take(i + 1) =~= name@.take(i as int).push(name@[i as int]));
                }
                i = i + 1;
            }
            proof {
                assert(name@.take(i as int) =~= name@);
            }
            Ok(path)
        },
        None => Err("failed to determine platform config directories".to_owned()),
    }
}

/// The names under which the platform's directories for this application are looked
/// up: the qualifier `dev`, the organization `anduin` and the application `anduin`.
pub fn project_identity() -> (r: (&'static str, &'static str, &'static str))
    ensures
        r.0@ == "dev"@,
        r.1@ == "anduin"@,
        r.2@ == "anduin"@,
{
    ("dev", "anduin", "anduin")
}

/// The path (as bytes) of the settings file: `settings.toml` in the platform's
/// configuration directory for the application named by `project_identity`, or an
/// error when the platform names none.
pub fn settings_path() -> (r: Result<Vec<u8>, String>)
    ensures
        match r {
            Ok(p) => exists|d: Seq<u8>, sep: Seq<u8>| p@ == path_join(d, sep, settings_file_name()),
            Err(e) => e@ == config_dir_error(),
        },
{
    let (qualifier, organization, application) = project_identity();
    let dir = project_config_dir(qualifier, organization, application);
    let separator = main_separator();
    let ghost g = dir;
    let r = settings_file_in(dir, separator);
    proof {
        match g {
            Some(d) => {
                let sep = vstd::utf8::encode_utf8(separator@);
                assert(r->Ok_0@ == path_join(d@, sep, settings_file_name()));
            },
            None => {},
        }
    }
    r
}

} // verus!

verus! {

proof fn lemma_without(s: Seq<Seq<char>>, p: Seq<char>)
    ensures
        !without(s, p).contains(p),
        without(s, p).len() <= s.len(),
        forall|x: Seq<char>| without(s, p).contains(x) ==> s.contains(x),
        s.no_duplicates() ==> without(s, p).no_duplicates(),
        !s.contains(p) ==> without(s, p) == s,
    decreases s.len(),
{
    if s.len() > 0 {
        let t = s.drop_last();
        lemma_without(t, p);
        assert forall|x: Seq<char>| t.contains(x) implies s.contains(x) by {
            let j = choose|j: int| 0 <= j < t.len() && t[j] == x;
            assert(s[j] == x);
        }
        if s.no_duplicates() {
            assert(t.no_duplicates());
            assert(!t.contains(s.last())) by {
                if t.contains(s.last()) {
                    let j = choose|j: int| 0 <= j < t.len() && t[j] == s.last();
                    assert(s[j] == s[s.len() - 1]);
                }
            }
        }
        if !s.contains(p) {
            assert(!t.contains(p)) by {
                if t.contains(p) {
                    let j = choose|j: int| 0 <= j < t.len() && t[j] == p;
                    assert(s[j] == p);
                }
            }
            assert(s.last() != p) by {
                assert(s[s.len() - 1] == s.last());
            }
            assert(t.push(s.last()) =~= s);
        }
        assert forall|x: Seq<char>| without(s, p).contains(x) implies s.contains(x) by {
            if s.last() != p && x == s.last() {
                assert(s[s.len() - 1] == x);
            }
        }
    }
}

proof fn lemma_without_front(w: Seq<Seq<char>>, p: Seq<char>)
    requires
        !w.contains(p),
    ensures
        without(seq![p] + w, p) == w,
    decreases w.len(),
{
    if w.len() == 0 {
        assert(seq![p] + w =~= seq![p]);
        assert(seq![p].drop_last() =~= Seq::<Seq<char>>::empty());
        assert(without(seq![p], p) == without(Seq::<Seq<char>>::empty(), p));
        assert(w =~= Seq::<Seq<char>>::empty());
    } else {
        let t = w.drop_last();
        assert(!t.contains(p)) by {
            if t.contains(p) {
                let j = choose|j: int| 0 <= j < t.len() && t[j] == p;
                assert(w[j] == p);
            }
        }
        lemma_without_front(t, p);
        assert((seq![p] + w).drop_last() =~= seq![p] + t);
        assert((seq![p] + w).last() == w.last());
        assert(w.last() != p) by {
            assert(w[w.len() - 1] == w.last());
        }
        assert(t.push(w.last()) =~= w);
        assert(without(seq![p] + w, p) == without(seq![p] + t, p).push(w.last()));
    }
}

/// After a repository is opened, the recent list starts with it, names it once, holds
/// at most `MAX_RECENT_REPOS` entries and no duplicates when it had none before; opening
/// the same repository again changes nothing.
pub proof fn lemma_recent_after(s: Seq<Seq<char>>, p: Seq<char>)
    ensures
        recent_after(s, p).len() >= 1,
        recent_after(s, p)[0] == p,
        recent_after(s, p).len() <= MAX_RECENT_REPOS,
        forall|i: int| 0 < i < recent_after(s, p).len() ==> #[trigger] recent_after(s, p)[i] != p,
        s.no_duplicates() ==> recent_after(s, p).no_duplicates(),
        recent_after(recent_after(s, p), p) == recent_after(s, p),
{
    let w = without(s, p);
    lemma_without(s, p);
    let all = seq![p] + w;
    let r = recent_after(s, p);
    assert forall|i: int| 0 < i < r.len() implies #[trigger] r[i] != p by {
        assert(r[i] == w[i - 1]);
    }
    if s.no_duplicates() {
        assert forall|i: int, j: int| 0 <= i < r.len() && 0 <= j < r.len() && i != j implies r[i] != r[j] by {
            if i > 0 && j > 0 {
                assert(r[i] == w[i - 1] && r[j] == w[j - 1]);
            }
        }
    }
    let w2 = r.drop_first();
    assert(r =~= seq![p] + w2);
    assert(!w2.contains(p)) by {
        if w2.contains(p) {
            let j = choose|j: int| 0 <= j < w2.len() && w2[j] == p;
            assert(r[j + 1] == p);
        }
    }
    lemma_without_front(w2, p);
}

} // verus!
