//! The two small lists that the dashboard keeps: code snippets by number
//! and saved servers by name.

use crate::scan::{first_where, lemma_first_where, lemma_first_where_is};
use vstd::prelude::*;

verus! {

// ---------------------------------------------------------------------------
// Snippets
// ---------------------------------------------------------------------------

/// A piece of code kept under a number.
pub struct Snippet {
    pub id: i64,
    pub name: String,
    pub language: String,
    pub code: String,
}

/// A snippet as plain values.
pub struct SnippetView {
    pub id: i64,
    pub name: Seq<char>,
    pub language: Seq<char>,
    pub code: Seq<char>,
}

impl View for Snippet {
    type V = SnippetView;

    open spec fn view(&self) -> SnippetView {
        SnippetView { id: self.id, name: self.name@, language: self.language@, code: self.code@ }
    }
}

/// The snippets as plain values.
pub open spec fn snippets(all: Seq<Snippet>) -> Seq<SnippetView> {
    all.map_values(|s: Snippet| s@)
}

/// The snippet has the number `id`.
pub open spec fn numbered(snippet: SnippetView, id: i64) -> bool {
    snippet.id == id
}

/// The position of the first snippet with the number `id`, or `all.len()`.
pub open spec fn snippet_index(all: Seq<SnippetView>, id: i64) -> nat {
    first_where(all, |s: SnippetView| numbered(s, id))
}

/// The list with the snippet saved: in the place of the first one with its
/// number, or in front of all where there is none.
pub open spec fn with_snippet(all: Seq<SnippetView>, snippet: SnippetView) -> Seq<SnippetView> {
    let i = snippet_index(all, snippet.id) as int;
    if i < all.len() {
        all.update(i, snippet)
    } else {
        seq![snippet] + all
    }
}

/// The list without the snippets with the number `id`.
pub open spec fn without_snippet(all: Seq<SnippetView>, id: i64) -> Seq<SnippetView>
    decreases all.len(),
{
    if all.len() == 0 {
        Seq::empty()
    } else if all.last().id == id {
        without_snippet(all.drop_last(), id)
    } else {
        without_snippet(all.drop_last(), id).push(all.last())
    }
}

/// A position that holds the number, or the length, with the number
/// nowhere before it, is `snippet_index`.
proof fn lemma_snippet_index_is(all: Seq<SnippetView>, id: i64, k: int)
    requires
        0 <= k <= all.len(),
        forall|j: int| 0 <= j < k ==> (#[trigger] all[j]).id != id,
        k < all.len() ==> all[k].id == id,
    ensures
        snippet_index(all, id) == k,
{
    lemma_first_where_is(all, |s: SnippetView| numbered(s, id), k);
}

/// Nothing is left out exactly when no snippet has the number.
pub proof fn lemma_without_snippet_len(all: Seq<SnippetView>, id: i64)
    ensures
        without_snippet(all, id).len() <= all.len(),
        without_snippet(all, id).len() == all.len() <==> snippet_index(all, id) >= all.len(),
        forall|k: int|
            0 <= k < without_snippet(all, id).len() ==> (#[trigger] without_snippet(all, id)[k]).id
                != id,
    decreases all.len(),
{
    if all.len() > 0 {
        let init = all.drop_last();
        lemma_without_snippet_len(init, id);
        lemma_snippet_index_bounds(all, id);
        lemma_snippet_index_bounds(init, id);
        if snippet_index(init, id) < init.len() {
            let k = snippet_index(init, id) as int;
            assert forall|j: int| 0 <= j < k implies (#[trigger] all[j]).id != id by {
                assert(all[j] == init[j]);
            }
            assert(all[k] == init[k]);
            lemma_snippet_index_is(all, id, k);
        } else {
            assert forall|j: int| 0 <= j < init.len() implies (#[trigger] all[j]).id != id by {
                assert(all[j] == init[j]);
            }
            if all.last().id == id {
                lemma_snippet_index_is(all, id, all.len() - 1);
            } else {
                lemma_snippet_index_is(all, id, all.len() as int);
            }
        }
    }
}

/// `snippet_index` is the first position that holds the number.
pub proof fn lemma_snippet_index_bounds(all: Seq<SnippetView>, id: i64)
    ensures
        snippet_index(all, id) <= all.len(),
        forall|j: int| 0 <= j < snippet_index(all, id) ==> (#[trigger] all[j]).id != id,
        snippet_index(all, id) < all.len() ==> all[snippet_index(all, id) as int].id == id,
{
    lemma_first_where(all, |s: SnippetView| numbered(s, id));
}

/// Saves the snippet: it takes the place of the first snippet with its
/// number; where there is none, it goes in front of all.
pub fn save_snippet(all: &mut Vec<Snippet>, snippet: Snippet)
    ensures
        snippets(final(all)@) == with_snippet(snippets(old(all)@), snippet@),
{
    let n = all.len();
    let mut i: usize = 0;
    while i < n && all[i].id != snippet.id
        invariant
            i <= n == all.len(),
            *all == *old(all),
            forall|j: int| 0 <= j < i ==> (#[trigger] snippets(all@)[j]).id != snippet.id,
        decreases n - i,
    {
        i += 1;
    }
    let ghost before = snippets(all@);
    proof {
        lemma_snippet_index_is(before, snippet.id, i as int);
    }
    if i < n {
        all.set(i, snippet);
        proof {
            assert(snippets(all@) =~= before.update(i as int, snippet@));
        }
    } else {
        all.insert(0, snippet);
        proof {
            assert(snippets(all@) =~= seq![snippet@] + before);
        }
    }
}

/// Deletes every snippet with the number `id` and tells whether there was
/// one.
pub fn delete_snippet(all: &mut Vec<Snippet>, id: i64) -> (found: bool)
    ensures
        snippets(final(all)@) == without_snippet(snippets(old(all)@), id),
        found <==> snippet_index(snippets(old(all)@), id) < old(all).len(),
        !found ==> snippets(final(all)@) == snippets(old(all)@),
{
    let mut kept: Vec<Snippet> = Vec::new();
    let mut rest: Vec<Snippet> = Vec::new();
    core::mem::swap(all, &mut rest);
    let ghost whole = snippets(rest@);
    let n = rest.len();
    let mut i: usize = 0;
    proof {
        assert(whole.subrange(0, 0) =~= Seq::<SnippetView>::empty());
        assert(snippets(kept@) =~= Seq::<SnippetView>::empty());
    }
    while i < n
        invariant
            i <= n == rest.len(),
            whole == snippets(rest@),
            snippets(kept@) == without_snippet(whole.subrange(0, i as int), id),
        decreases n - i,
    {
        proof {
            let seen = whole.subrange(0, i + 1);
            assert(seen.drop_last() =~= whole.subrange(0, i as int));
            assert(seen.last() == rest@[i as int]@);
        }
        if rest[i].id != id {
            let ghost before = snippets(kept@);
            let copy = Snippet {
                id: rest[i].id,
                name: rest[i].name.clone(),
                language: rest[i].language.clone(),
                code: rest[i].code.clone(),
            };
            kept.push(copy);
            proof {
                assert(snippets(kept@) =~= before.push(rest@[i as int]@));
            }
        }
        i += 1;
    }
    proof {
        assert(whole.subrange(0, n as int) =~= whole);
        lemma_without_snippet_len(whole, id);
    }
    let found = kept.len() < n;
    proof {
        assert(snippets(kept@).len() == kept.len());
        if !found {
            lemma_without_all_kept(whole, id);
        }
    }
    *all = kept;
    found
}

/// A list in which no snippet has the number stays as it is.
proof fn lemma_without_all_kept(all: Seq<SnippetView>, id: i64)
    requires
        snippet_index(all, id) >= all.len(),
    ensures
        without_snippet(all, id) == all,
    decreases all.len(),
{
    lemma_snippet_index_bounds(all, id);
    if all.len() > 0 {
        let init = all.drop_last();
        assert forall|j: int| 0 <= j < init.len() implies (#[trigger] init[j]).id != id by {
            assert(init[j] == all[j]);
        }
        lemma_snippet_index_is(init, id, init.len() as int);
        lemma_without_all_kept(init, id);
        assert(all[all.len() - 1].id != id);
        assert(init.push(all.last()) =~= all);
    }
}

// ---------------------------------------------------------------------------
// Saved servers
// ---------------------------------------------------------------------------

/// A server that the dashboard remembers, by name.
pub struct SavedServer {
    pub name: String,
    pub host: String,
    pub user: String,
    pub port: u16,
    pub password: String,
}

/// A saved server as plain values.
pub struct ServerView {
    pub name: Seq<char>,
    pub host: Seq<char>,
    pub user: Seq<char>,
    pub port: u16,
    pub password: Seq<char>,
}

impl View for SavedServer {
    type V = ServerView;

    open spec fn view(&self) -> ServerView {
        ServerView {
            name: self.name@,
            host: self.host@,
            user: self.user@,
            port: self.port,
            password: self.password@,
        }
    }
}

/// The servers as plain values.
pub open spec fn servers(all: Seq<SavedServer>) -> Seq<ServerView> {
    all.map_values(|s: SavedServer| s@)
}

/// The list without the servers of the name `name`.
pub open spec fn without_server(all: Seq<ServerView>, name: Seq<char>) -> Seq<ServerView>
    decreases all.len(),
{
    if all.len() == 0 {
        Seq::empty()
    } else if all.last().name == name {
        without_server(all.drop_last(), name)
    } else {
        without_server(all.drop_last(), name).push(all.last())
    }
}

/// Some server of the list has the name.
pub open spec fn has_server(all: Seq<ServerView>, name: Seq<char>) -> bool {
    exists|i: int| 0 <= i < all.len() && (#[trigger] all[i]).name == name
}

/// Dropping a name leaves the list as long as it was exactly when no
/// server has the name.
pub proof fn lemma_without_server_len(all: Seq<ServerView>, name: Seq<char>)
    ensures
        without_server(all, name).len() <= all.len(),
        without_server(all, name).len() < all.len() <==> has_server(all, name),
    decreases all.len(),
{
    if all.len() > 0 {
        let init = all.drop_last();
        lemma_without_server_len(init, name);
        if has_server(init, name) {
            let i = choose|i: int| 0 <= i < init.len() && (#[trigger] init[i]).name == name;
            assert(all[i].name == name);
        }
        if all.last().name == name {
            assert(all[all.len() - 1].name == name);
        }
        if has_server(all, name) && !has_server(init, name) {
            let i = choose|i: int| 0 <= i < all.len() && (#[trigger] all[i]).name == name;
            if i < init.len() {
                assert(init[i].name == name);
            }
        }
    }
}

/// A copy of the list without the servers of the name `name`.
fn servers_without(all: &Vec<SavedServer>, name: &String) -> (kept: Vec<SavedServer>)
    ensures
        servers(kept@) == without_server(servers(all@), name@),
{
    let mut kept: Vec<SavedServer> = Vec::new();
    let mut i: usize = 0;
    proof {
        assert(servers(all@).subrange(0, 0) =~= Seq::<ServerView>::empty());
        assert(servers(kept@) =~= Seq::<ServerView>::empty());
    }
    while i < all.len()
        invariant
            i <= all.len(),
            servers(kept@) == without_server(servers(all@).subrange(0, i as int), name@),
        decreases all.len() - i,
    {
        proof {
            let seen = servers(all@).subrange(0, i + 1);
            assert(seen.drop_last() =~= servers(all@).subrange(0, i as int));
            assert(seen.last() == all@[i as int]@);
        }
        if all[i].name != *name {
            let ghost before = servers(kept@);
            kept.push(
                SavedServer {
                    name: all[i].name.clone(),
                    host: all[i].host.clone(),
                    user: all[i].user.clone(),
                    port: all[i].port,
                    password: all[i].password.clone(),
                },
            );
            proof {
                assert(servers(kept@) =~= before.push(all@[i as int]@));
            }
        }
        i += 1;
    }
    proof {
        assert(servers(all@).subrange(0, all.len() as int) =~= servers(all@));
    }
    kept
}

/// Saves the server: every server of its name leaves the list, and it goes
/// to the end.
pub fn save_server(all: &mut Vec<SavedServer>, server: SavedServer)
    ensures
        servers(final(all)@) == without_server(servers(old(all)@), server.name@).push(server@),
{
    let mut kept = servers_without(all, &server.name);
    let ghost before = servers(kept@);
    kept.push(server);
    proof {
        assert(servers(kept@) =~= before.push(server@));
    }
    *all = kept;
}

/// Deletes every server of the name `name` and tells whether there was one.
pub fn delete_server(all: &mut Vec<SavedServer>, name: &String) -> (found: bool)
    ensures
        found <==> has_server(servers(old(all)@), name@),
        found ==> servers(final(all)@) == without_server(servers(old(all)@), name@),
        !found ==> *final(all) == *old(all),
{
    let kept = servers_without(all, name);
    proof {
        lemma_without_server_len(servers(all@), name@);
        assert(servers(kept@).len() == kept.len());
        assert(servers(all@).len() == all.len());
    }
    if kept.len() < all.len() {
        *all = kept;
        true
    } else {
        false
    }
}

} // verus!
