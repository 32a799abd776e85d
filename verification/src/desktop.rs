//! Decisions of the desktop application's commands that do not depend on the UI:
//! allowed shortcuts, bounds on chat and search input, and the shaping of search
//! results.
use vstd::prelude::*;

use crate::launch_item::LaunchPlatform;
use crate::platform::AppLaunchSpec;
use crate::text::{chars_of, same_text, texts, trim, trimmed};

verus! {

/// The web or application address of each allowed shortcut.
pub open spec fn shortcut_url(id: Seq<char>) -> Option<Seq<char>> {
    if id == "discord"@ {
        Some("https://discord.com/app"@)
    } else if id == "steam"@ {
        Some("steam://open/main"@)
    } else if id == "twitch"@ {
        Some("https://www.twitch.tv"@)
    } else if id == "youtube-music"@ {
        Some("https://music.youtube.com"@)
    } else if id == "stremio"@ {
        Some("https://web.stremio.com"@)
    } else if id == "disney"@ {
        Some("https://www.disneyplus.com"@)
    } else {
        None
    }
}

/// Returns the address of an allowed shortcut; unknown ids have none.
pub fn shortcut_target(id: &str) -> (r: Option<&'static str>)
    ensures
        match shortcut_url(id@) {
            Some(u) => r matches Some(t) && t@ == u,
            None => r is None,
        },
{
    if same_text(id, "discord") {
        Some("https://discord.com/app")
    } else if same_text(id, "steam") {
        Some("steam://open/main")
    } else if same_text(id, "twitch") {
        Some("https://www.twitch.tv")
    } else if same_text(id, "youtube-music") {
        Some("https://music.youtube.com")
    } else if same_text(id, "stremio") {
        Some("https://web.stremio.com")
    } else if same_text(id, "disney") {
        Some("https://www.disneyplus.com")
    } else {
        None
    }
}

/// The program that opens an address on each platform.
pub open spec fn opener(platform: LaunchPlatform) -> Seq<char> {
    match platform {
        LaunchPlatform::Linux => "xdg-open"@,
        LaunchPlatform::Windows => "explorer.exe"@,
    }
}

/// The launch request for an allowed shortcut: the platform's opener with the
/// shortcut's address as its only argument.
pub fn shortcut_specification(platform: LaunchPlatform, id: &str) -> (r: Option<AppLaunchSpec>)
    ensures
        match shortcut_url(id@) {
            Some(u) => r matches Some(s) && s.identifier@ == opener(platform) && texts(
                s.arguments@,
            ) == seq![u],
            None => r is None,
        },
{
    let target = match shortcut_target(id) {
        Some(t) => t,
        None => return None,
    };
    let identifier = match platform {
        LaunchPlatform::Linux => "xdg-open".to_owned(),
        LaunchPlatform::Windows => "explorer.exe".to_owned(),
    };
    let mut arguments: Vec<String> = Vec::new();
    arguments.push(target.to_owned());
    assert(texts(arguments@) =~= seq![target@]);
    Some(AppLaunchSpec { identifier, arguments })
}

/// Input bounded by length: trimmed, between 1 and `max` characters, else the message.
pub open spec fn bounded_input(s: Seq<char>, max: nat, message: Seq<char>) -> Result<
    Seq<char>,
    Seq<char>,
> {
    let t = trim(s);
    if t.len() == 0 || t.len() > max {
        Err(message)
    } else {
        Ok(t)
    }
}

fn bounded(s: &str, max: usize, message: &str) -> (r: Result<String, String>)
    ensures
        match bounded_input(s@, max as nat, message@) {
            Ok(t) => r matches Ok(x) && x@ == t,
            Err(m) => r matches Err(x) && x@ == m,
        },
{
    let t = trimmed(s);
    let count = chars_of(t.as_str()).len();
    if count == 0 || count > max {
        return Err(message.to_owned());
    }
    Ok(t)
}

/// The message refused for chat input out of bounds.
pub open spec fn chat_input_message() -> Seq<char> {
    "Le message doit contenir entre 1 et 4000 caractères."@
}

/// A chat message is trimmed and must hold between 1 and 4000 characters.
pub fn validate_chat_message(message: &str) -> (r: Result<String, String>)
    ensures
        match bounded_input(message@, 4000, chat_input_message()) {
            Ok(t) => r matches Ok(x) && x@ == t,
            Err(m) => r matches Err(x) && x@ == m,
        },
{
    bounded(message, 4000, "Le message doit contenir entre 1 et 4000 caractères.")
}

/// The message refused for search input out of bounds.
pub open spec fn search_input_message() -> Seq<char> {
    "La recherche doit contenir entre 1 et 120 caractères."@
}

/// A search query is trimmed and must hold between 1 and 120 characters.
pub fn validate_search_query(query: &str) -> (r: Result<String, String>)
    ensures
        match bounded_input(query@, 120, search_input_message()) {
            Ok(t) => r matches Ok(x) && x@ == t,
            Err(m) => r matches Err(x) && x@ == m,
        },
{
    bounded(query, 120, "La recherche doit contenir entre 1 et 120 caractères.")
}

/// One encyclopedia search result.
#[derive(Debug, Clone, PartialEq, Eq)]
pub struct WikiResult {
    /// Article title.
    pub title: String,
    /// Short description.
    pub description: String,
    /// Article address.
    pub url: String,
}

/// A search result as character sequences.
pub struct WikiView {
    pub title: Seq<char>,
    pub description: Seq<char>,
    pub url: Seq<char>,
}

impl View for WikiResult {
    type V = WikiView;

    open spec fn view(&self) -> WikiView {
        WikiView { title: self.title@, description: self.description@, url: self.url@ }
    }
}

/// The texts of a column of JSON values, `None` for a value that is not a string.
pub open spec fn column_view(v: Seq<Option<String>>) -> Seq<Option<Seq<char>>> {
    v.map_values(
        |o: Option<String>|
            match o {
                Some(s) => Some(s@),
                None => None,
            },
    )
}

/// The entry of row `i` when all three columns hold a string there.
pub open spec fn wiki_row(
    titles: Seq<Option<Seq<char>>>,
    descriptions: Seq<Option<Seq<char>>>,
    urls: Seq<Option<Seq<char>>>,
    i: int,
) -> Option<WikiView> {
    match (titles[i], descriptions[i], urls[i]) {
        (Some(t), Some(d), Some(u)) => Some(WikiView { title: t, description: d, url: u }),
        _ => None,
    }
}

/// The smallest of three lengths.
pub open spec fn min3(a: nat, b: nat, c: nat) -> nat {
    if a <= b && a <= c {
        a
    } else if b <= c {
        b
    } else {
        c
    }
}

/// The results of an OpenSearch reply: its title, description and address columns
/// read side by side up to the shortest column, rows with a non-string value skipped;
/// a missing column makes the reply invalid.
pub open spec fn wiki_reply(
    titles: Option<Seq<Option<Seq<char>>>>,
    descriptions: Option<Seq<Option<Seq<char>>>>,
    urls: Option<Seq<Option<Seq<char>>>>,
) -> Result<Seq<WikiView>, Seq<char>> {
    match (titles, descriptions, urls) {
        (Some(t), Some(d), Some(u)) => Ok(
            Seq::new(min3(t.len(), d.len(), u.len()), |i: int| wiki_row(t, d, u, i)).filter_map(
                |o: Option<WikiView>| o,
            ),
        ),
        _ => Err("Réponse Wikipédia invalide."@),
    }
}

/// Row `i` holds a string in all three columns.
pub open spec fn row_complete(
    titles: Seq<Option<Seq<char>>>,
    descriptions: Seq<Option<Seq<char>>>,
    urls: Seq<Option<Seq<char>>>,
    i: int,
) -> bool {
    titles[i] is Some && descriptions[i] is Some && urls[i] is Some
}

/// How many of the first `n` rows are complete.
pub open spec fn complete_rows(
    titles: Seq<Option<Seq<char>>>,
    descriptions: Seq<Option<Seq<char>>>,
    urls: Seq<Option<Seq<char>>>,
    n: int,
) -> nat
    decreases n,
{
    if n <= 0 {
        0
    } else {
        complete_rows(titles, descriptions, urls, n - 1) + if row_complete(
            titles,
            descriptions,
            urls,
            n - 1,
        ) {
            1nat
        } else {
            0nat
        }
    }
}

proof fn lemma_complete_rows_monotone(
    t: Seq<Option<Seq<char>>>,
    d: Seq<Option<Seq<char>>>,
    u: Seq<Option<Seq<char>>>,
    i: int,
    n: int,
)
    requires
        0 <= i <= n,
    ensures
        complete_rows(t, d, u, i) <= complete_rows(t, d, u, n),
        i < n && row_complete(t, d, u, i) ==> complete_rows(t, d, u, i) < complete_rows(t, d, u, n),
    decreases n - i,
{
    if i < n {
        lemma_complete_rows_monotone(t, d, u, i, n - 1);
    }
}

proof fn lemma_wiki_prefix(
    t: Seq<Option<Seq<char>>>,
    d: Seq<Option<Seq<char>>>,
    u: Seq<Option<Seq<char>>>,
    n: int,
)
    requires
        0 <= n <= min3(t.len(), d.len(), u.len()),
    ensures
        ({
            let rows = Seq::new(min3(t.len(), d.len(), u.len()), |i: int| wiki_row(t, d, u, i));
            let r = rows.take(n).filter_map(|o: Option<WikiView>| o);
            &&& r.len() == complete_rows(t, d, u, n)
            &&& forall|i: int|
                0 <= i < n && row_complete(t, d, u, i) ==> r[complete_rows(t, d, u, i) as int]
                    == (WikiView {
                    title: t[i]->Some_0,
                    description: d[i]->Some_0,
                    url: u[i]->Some_0,
                })
        }),
    decreases n,
{
    let rows = Seq::new(min3(t.len(), d.len(), u.len()), |i: int| wiki_row(t, d, u, i));
    let f = |o: Option<WikiView>| o;
    if n == 0 {
        assert(rows.take(0) =~= Seq::<Option<WikiView>>::empty());
        assert(rows.take(0).filter_map(f) =~= Seq::<WikiView>::empty());
    } else {
        lemma_wiki_prefix(t, d, u, n - 1);
        rows.lemma_filter_map_take_succ(f, n - 1);
        let prev = rows.take(n - 1).filter_map(f);
        let r = rows.take(n).filter_map(f);
        assert forall|i: int|
            0 <= i < n && row_complete(t, d, u, i) implies r[complete_rows(t, d, u, i) as int]
            == (WikiView { title: t[i]->Some_0, description: d[i]->Some_0, url: u[i]->Some_0 }) by {
            if i < n - 1 {
                lemma_complete_rows_monotone(t, d, u, i, n - 1);
                assert(r[complete_rows(t, d, u, i) as int] == prev[complete_rows(t, d, u, i) as int]);
            }
        }
    }
}

/// The results of a reply with all three columns are exactly its complete rows, in row
/// order: there are as many results as rows below the shortest column's length holding
/// a string in each column, and the complete row `i` is the result numbered by how many
/// complete rows precede it. A reply missing a column is invalid.
pub proof fn lemma_wiki_results_are_the_complete_rows(
    titles: Seq<Option<Seq<char>>>,
    descriptions: Seq<Option<Seq<char>>>,
    urls: Seq<Option<Seq<char>>>,
)
    ensures
        ({
            let m = min3(titles.len(), descriptions.len(), urls.len());
            &&& m <= titles.len() && m <= descriptions.len() && m <= urls.len()
            &&& (m == titles.len() || m == descriptions.len() || m == urls.len())
            &&& wiki_reply(Some(titles), Some(descriptions), Some(urls)) matches Ok(r) && r.len()
                == complete_rows(titles, descriptions, urls, m as int) && forall|i: int|
                0 <= i < m && row_complete(titles, descriptions, urls, i) ==> r[complete_rows(
                    titles,
                    descriptions,
                    urls,
                    i,
                ) as int] == (WikiView {
                    title: titles[i]->Some_0,
                    description: descriptions[i]->Some_0,
                    url: urls[i]->Some_0,
                })
        }),
        wiki_reply(None, Some(descriptions), Some(urls)) is Err,
        wiki_reply(Some(titles), None, Some(urls)) is Err,
        wiki_reply(Some(titles), Some(descriptions), None) is Err,
{
    let m = min3(titles.len(), descriptions.len(), urls.len());
    lemma_wiki_prefix(titles, descriptions, urls, m as int);
    let rows = Seq::new(m, |i: int| wiki_row(titles, descriptions, urls, i));
    assert(rows.take(m as int) =~= rows);
}

/// An optional column as optional texts.
pub open spec fn opt_column(c: Option<Vec<Option<String>>>) -> Option<Seq<Option<Seq<char>>>> {
    match c {
        Some(v) => Some(column_view(v@)),
        None => None,
    }
}

/// Shapes the columns of an OpenSearch reply into results.
pub fn wiki_results(
    titles: Option<Vec<Option<String>>>,
    descriptions: Option<Vec<Option<String>>>,
    urls: Option<Vec<Option<String>>>,
) -> (r: Result<Vec<WikiResult>, String>)
    ensures
        match wiki_reply(opt_column(titles), opt_column(descriptions), opt_column(urls)) {
            Ok(list) => r matches Ok(v) && v@.map_values(|w: WikiResult| w@) == list,
            Err(m) => r matches Err(x) && x@ == m,
        },
{
    let (titles, descriptions, urls) = match (titles, descriptions, urls) {
        (Some(t), Some(d), Some(u)) => (t, d, u),
        _ => return Err("Réponse Wikipédia invalide.".to_owned()),
    };
    let ghost tv = column_view(titles@);
    let ghost dv = column_view(descriptions@);
    let ghost uv = column_view(urls@);
    let mut n = titles.len();
    if descriptions.len() < n {
        n = descriptions.len();
    }
    if urls.len() < n {
        n = urls.len();
    }
    let ghost rows = Seq::new(min3(tv.len(), dv.len(), uv.len()), |i: int| wiki_row(tv, dv, uv, i));
    let ghost id = |o: Option<WikiView>| o;
    assert(rows.len() == n);
    let mut out: Vec<WikiResult> = Vec::new();
    let mut k: usize = 0;
    while k < n
        invariant
            k <= n == rows.len(),
            n <= titles@.len() && n <= descriptions@.len() && n <= urls@.len(),
            rows == Seq::new(min3(tv.len(), dv.len(), uv.len()), |i: int| wiki_row(tv, dv, uv, i)),
            tv == column_view(titles@),
            dv == column_view(descriptions@),
            uv == column_view(urls@),
            id == (|o: Option<WikiView>| o),
            out@.map_values(|w: WikiResult| w@) == rows.take(k as int).filter_map(id),
        decreases n - k,
    {
        proof {
            rows.lemma_filter_map_take_succ(id, k as int);
        }
        match (&titles[k], &descriptions[k], &urls[k]) {
            (Some(t), Some(d), Some(u)) => {
                let w = WikiResult { title: t.clone(), description: d.clone(), url: u.clone() };
                let ghost before = out@;
                out.push(w);
                proof {
                    assert(rows[k as int] == Some(w@));
                    assert(out@.map_values(|w: WikiResult| w@) =~= before.map_values(
                        |w: WikiResult| w@,
                    ).push(w@));
                }
            },
            _ => {
                assert(rows[k as int] is None);
            },
        }
        proof {
            assert(rows.take(k + 1).filter_map(id) =~= out@.map_values(|w: WikiResult| w@));
        }
        k += 1;
    }
    assert(rows.take(n as int) =~= rows);
    Ok(out)
}

/// Which chat request is in flight. Starting a request supersedes the previous one,
/// which the caller must cancel; a finished request clears the registry only while it
/// is still the current one.
#[derive(Debug)]
pub struct ChatRegistry {
    current: Option<u64>,
    next_id: u64,
}

impl ChatRegistry {
    /// The request in flight, if any.
    pub closed spec fn current_spec(&self) -> Option<u64> {
        self.current
    }

    /// The identifier the next request will get.
    pub closed spec fn next_spec(&self) -> u64 {
        self.next_id
    }

    /// No request in flight; identifiers start at 1.
    pub fn new() -> (r: Self)
        ensures
            r.current_spec() is None,
            r.next_spec() == 1,
    {
        ChatRegistry { current: None, next_id: 1 }
    }

    /// Registers a new request: returns its identifier and the superseded request that
    /// must be cancelled. Identifiers count up, wrapping after `u64::MAX`.
    pub fn start(&mut self) -> (r: (u64, Option<u64>))
        ensures
            r.0 == old(self).next_spec(),
            r.1 == old(self).current_spec(),
            final(self).current_spec() == Some(r.0),
            final(self).next_spec() == if old(self).next_spec() == u64::MAX {
                0
            } else {
                (old(self).next_spec() + 1) as u64
            },
    {
        let id = self.next_id;
        self.next_id = if self.next_id == u64::MAX {
            0
        } else {
            self.next_id + 1
        };
        let previous = self.current;
        self.current = Some(id);
        (id, previous)
    }

    /// Returns the request in flight, whose cancellation a user may ask for.
    pub fn active(&self) -> (r: Option<u64>)
        ensures
            r == self.current_spec(),
    {
        self.current
    }

    /// Forgets request `id` once it has finished, unless a newer request replaced it.
    pub fn clear(&mut self, id: u64)
        ensures
            final(self).current_spec() == if old(self).current_spec() == Some(id) {
                None
            } else {
                old(self).current_spec()
            },
            final(self).next_spec() == old(self).next_spec(),
    {
        if self.current == Some(id) {
            self.current = None;
        }
    }
}

/// How old a temporary entry must be before cleanup removes it: 24 hours, in
/// nanoseconds.
pub const STALE_AFTER_NANOS: i128 = 86_400_000_000_000;

/// Which entries of the temporary folder cleanup removes, given the current time and
/// each entry's modification time (signed nanoseconds from the Unix epoch, negative
/// before it; `None` when the time could not be read): those modified more than 24
/// hours before now. Only a clock so early that 24 hours cannot be taken from it is
/// refused.
pub fn stale_entries(now_nanos: i128, modified_nanos: &[Option<i128>]) -> (r: Result<
    Vec<bool>,
    String,
>)
    ensures
        now_nanos - STALE_AFTER_NANOS < i128::MIN ==> (r matches Err(m) && m@
            == "Horloge système invalide."@),
        now_nanos - STALE_AFTER_NANOS >= i128::MIN ==> (r matches Ok(v) && v@.len()
            == modified_nanos@.len() && forall|i: int|
            0 <= i < v@.len() ==> v@[i] == (modified_nanos@[i] matches Some(m) && m < now_nanos
                - STALE_AFTER_NANOS)),
{
    if now_nanos < i128::MIN + STALE_AFTER_NANOS {
        return Err("Horloge système invalide.".to_owned());
    }
    let cutoff = now_nanos - STALE_AFTER_NANOS;
    let mut plan: Vec<bool> = Vec::new();
    let mut k: usize = 0;
    while k < modified_nanos.len()
        invariant
            k <= modified_nanos@.len(),
            cutoff == now_nanos - STALE_AFTER_NANOS,
            plan@.len() == k,
            forall|i: int|
                0 <= i < k ==> plan@[i] == (modified_nanos@[i] matches Some(m) && m < cutoff),
        decreases modified_nanos.len() - k,
    {
        let stale = match modified_nanos[k] {
            Some(m) => m < cutoff,
            None => false,
        };
        plan.push(stale);
        k += 1;
    }
    Ok(plan)
}

/// The number of `true` entries.
pub open spec fn count_true(s: Seq<bool>) -> nat
    decreases s.len(),
{
    if s.len() == 0 {
        0
    } else {
        count_true(s.drop_last()) + if s.last() {
            1nat
        } else {
            0nat
        }
    }
}

proof fn lemma_count_true_bound(s: Seq<bool>)
    ensures
        count_true(s) <= s.len(),
    decreases s.len(),
{
    if s.len() > 0 {
        lemma_count_true_bound(s.drop_last());
    }
}

/// The number of removals that succeeded, as the cleanup report gives it.
pub fn removed_count(outcomes: &[bool]) -> (r: u64)
    ensures
        r == count_true(outcomes@),
{
    let mut count: u64 = 0;
    let mut k: usize = 0;
    while k < outcomes.len()
        invariant
            k <= outcomes@.len(),
            count == count_true(outcomes@.take(k as int)),
        decreases outcomes.len() - k,
    {
        proof {
            assert(outcomes@.take(k + 1).drop_last() =~= outcomes@.take(k as int));
            lemma_count_true_bound(outcomes@.take(k as int));
        }
        if outcomes[k] {
            count = count + 1;
        }
        k += 1;
    }
    assert(outcomes@.take(outcomes@.len() as int) =~= outcomes@);
    count
}

} // verus!
