//! Where lists of items are cached, and for how long.

use vstd::prelude::*;
use vstd::string::*;

use crate::failure;
use crate::failure::Failure;
use crate::ids;
use crate::seqs;
use crate::text;

verus! {

/// The kinds of systems that differ in where they keep caches.
#[derive(Clone, Copy, Debug, PartialEq, Eq, Structural)]
pub enum CachePlatform {
    Windows,
    Macos,
    Other,
}

/// The variables that say where caches are kept, each where it is set.
#[derive(Debug)]
pub struct CacheEnv {
    pub xdg_cache_home: Option<String>,
    pub local_app_data: Option<String>,
    pub app_data: Option<String>,
    pub user_profile: Option<String>,
    pub home: Option<String>,
}

impl CacheEnv {
    /// No variable is set.
    pub fn unset() -> (r: CacheEnv)
        ensures
            r.xdg_cache_home is None,
            r.local_app_data is None,
            r.app_data is None,
            r.user_profile is None,
            r.home is None,
    {
        CacheEnv {
            xdg_cache_home: None,
            local_app_data: None,
            app_data: None,
            user_profile: None,
            home: None,
        }
    }
}

/// A directory: a base, and the names of the directories below it that lead to it.
#[derive(Debug)]
pub struct CacheDir {
    pub base: String,
    pub below: Vec<String>,
}

/// A variable that is set to something.
pub open spec fn filled(value: Option<String>) -> Option<Seq<char>> {
    match value {
        Some(s) => if s@.len() > 0 {
            Some(s@)
        } else {
            None
        },
        None => None,
    }
}

/// The directory for caches.
pub open spec fn cache_dir(platform: CachePlatform, env: CacheEnv) -> Option<
    (Seq<char>, Seq<Seq<char>>),
> {
    if filled(env.xdg_cache_home) is Some {
        Some((filled(env.xdg_cache_home)->0, seq!["opz"@]))
    } else if platform is Windows && filled(env.local_app_data) is Some {
        Some((filled(env.local_app_data)->0, seq!["opz"@]))
    } else if platform is Windows && filled(env.app_data) is Some {
        Some((filled(env.app_data)->0, seq!["opz"@]))
    } else if platform is Windows && filled(env.user_profile) is Some {
        Some((filled(env.user_profile)->0, seq!["AppData"@, "Local"@, "opz"@]))
    } else {
        match env.home {
            None => None,
            Some(home) => if platform is Macos {
                Some((home@, seq!["Library"@, "Caches"@, "dev.opz.opz"@]))
            } else {
                Some((home@, seq![".cache"@, "opz"@]))
            },
        }
    }
}

/// Whether a variable is set to something.
fn is_filled(value: &Option<String>) -> (r: bool)
    ensures
        r == (filled(*value) is Some),
{
    match value {
        Some(s) => s.as_str().unicode_len() > 0,
        None => false,
    }
}

/// The directory below a base.
fn dir_below(base: &Option<String>, one: &str, two: &str, three: &str) -> (r: CacheDir)
    requires
        *base is Some,
    ensures
        r.base@ == base->0@,
        seqs::texts(r.below@) == seqs_of(one@, two@, three@),
{
    let mut below = seqs::no_texts();
    if one.unicode_len() > 0 {
        seqs::push_text(&mut below, one);
    }
    if two.unicode_len() > 0 {
        seqs::push_text(&mut below, two);
    }
    seqs::push_text(&mut below, three);
    assert(seqs::texts(below@) =~= seqs_of(one@, two@, three@));
    let base = match base {
        Some(s) => s.clone(),
        None => String::new(),
    };
    CacheDir { base, below }
}

/// The names that are not empty, and the last one.
spec fn seqs_of(one: Seq<char>, two: Seq<char>, three: Seq<char>) -> Seq<Seq<char>> {
    (if one.len() > 0 {
        seq![one]
    } else {
        Seq::<Seq<char>>::empty()
    }) + (if two.len() > 0 {
        seq![two]
    } else {
        Seq::<Seq<char>>::empty()
    }) + seq![three]
}

/// The directory for caches.
pub fn item_list_cache_dir_from_env(platform: CachePlatform, env: &CacheEnv) -> (r: Result<
    CacheDir,
    Failure,
>)
    ensures
        match cache_dir(platform, *env) {
            Some((base, below)) => r matches Ok(dir) && dir.base@ == base && seqs::texts(
                dir.below@,
            ) == below,
            None => failure::failed(r, "no cache dir"@),
        },
{
    proof {
        reveal_strlit("");
        reveal_strlit("AppData");
        reveal_strlit("Local");
        reveal_strlit("Library");
        reveal_strlit("Caches");
        reveal_strlit(".cache");
        assert(seqs_of(""@, ""@, "opz"@) =~= seq!["opz"@]);
        assert(seqs_of("AppData"@, "Local"@, "opz"@) =~= seq!["AppData"@, "Local"@, "opz"@]);
        assert(seqs_of("Library"@, "Caches"@, "dev.opz.opz"@) =~= seq![
            "Library"@,
            "Caches"@,
            "dev.opz.opz"@,
        ]);
        assert(seqs_of(".cache"@, ""@, "opz"@) =~= seq![".cache"@, "opz"@]);
    }
    if is_filled(&env.xdg_cache_home) {
        return Ok(dir_below(&env.xdg_cache_home, "", "", "opz"));
    }
    if platform == CachePlatform::Windows {
        if is_filled(&env.local_app_data) {
            return Ok(dir_below(&env.local_app_data, "", "", "opz"));
        }
        if is_filled(&env.app_data) {
            return Ok(dir_below(&env.app_data, "", "", "opz"));
        }
        if is_filled(&env.user_profile) {
            return Ok(dir_below(&env.user_profile, "AppData", "Local", "opz"));
        }
    }
    if env.home.is_none() {
        return Err(failure::fail("no cache dir"));
    }
    if platform == CachePlatform::Macos {
        Ok(dir_below(&env.home, "Library", "Caches", "dev.opz.opz"))
    } else {
        Ok(dir_below(&env.home, ".cache", "", "opz"))
    }
}

/// The vault that a cache is for, or the name for all vaults.
pub open spec fn vault_key(vault: Option<Seq<char>>) -> Seq<char> {
    match vault {
        Some(v) => v,
        None => "_all_"@,
    }
}

/// The name of the file that caches the items of a vault.
pub open spec fn list_file(vault: Option<Seq<char>>) -> Seq<char> {
    "item_list_"@ + ids::hex_hash(vault_key(vault)) + ".json"@
}

/// The name of the file that caches the repositories of the items of a vault.
pub open spec fn index_file(vault: Option<Seq<char>>) -> Seq<char> {
    "github_repository_index_"@ + ids::hex_hash("github_repositories:"@ + vault_key(vault))
        + ".json"@
}

/// The vault that a cache is for.
fn key_for(vault: Option<&str>) -> (r: String)
    ensures
        r@ == vault_key(vault.deep_view()),
{
    match vault {
        Some(v) => v.to_owned(),
        None => "_all_".to_owned(),
    }
}

/// The name of the file that caches the items of a vault.
pub fn cache_file_name(vault: Option<&str>) -> (r: String)
    ensures
        r@ == list_file(vault.deep_view()),
{
    "item_list_".to_owned().concat(&ids::stable_hex_hash(&key_for(vault))).concat(".json")
}

/// The name of the file that caches the repositories of the items of a vault.
pub fn github_repository_index_cache_file_name(vault: Option<&str>) -> (r: String)
    ensures
        r@ == index_file(vault.deep_view()),
{
    let key = "github_repositories:".to_owned().concat(&key_for(vault));
    "github_repository_index_".to_owned().concat(&ids::stable_hex_hash(&key)).concat(".json")
}

/// Whether a file is one of the caches.
pub open spec fn is_cache(name: Seq<char>) -> bool {
    (text::begins(name, "item_list_"@) || text::begins(name, "github_repository_index_"@))
        && text::ends(name, ".json"@)
}

/// Whether a file is one of the caches, to be removed when they are invalidated.
pub fn is_cache_file_name(name: &str) -> (r: bool)
    ensures
        r == is_cache(name@),
{
    (text::starts_with(name, "item_list_") || text::starts_with(name, "github_repository_index_"))
        && text::ends_with(name, ".json")
}

/// Invalidation removes every cache that the library writes.
pub proof fn law_own_files_are_caches(vault: Option<Seq<char>>)
    ensures
        is_cache(list_file(vault)),
        is_cache(index_file(vault)),
{
    let a = list_file(vault);
    assert(a.subrange(0, "item_list_"@.len() as int) =~= "item_list_"@);
    assert(a.subrange(a.len() - ".json"@.len(), a.len() as int) =~= ".json"@);
    let b = index_file(vault);
    assert(b.subrange(0, "github_repository_index_"@.len() as int)
        =~= "github_repository_index_"@);
    assert(b.subrange(b.len() - ".json"@.len(), b.len() as int) =~= ".json"@);
}

/// Whether a cache of that age, in whole seconds, is still used: it is younger than a minute.
pub fn is_cache_fresh(age_seconds: u64) -> (r: bool)
    ensures
        r == (age_seconds < 60),
{
    age_seconds < 60
}

} // verus!
