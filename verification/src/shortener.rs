use vstd::prelude::*;
use crate::digests;
use crate::hexstr;

verus! {

/// One request to the short-code store, as the command line presents it.
pub enum UrlAction {
    Add { url: String },
    Get { code: String },
    List,
    Open { code: String },
}

/// What one request produced, for the caller to report.
pub enum UrlOutcome {
    Added { code: String },
    Found { url: String },
    NotFound,
    Listing { pairs: Vec<(String, String)> },
    OpenUrl { url: String },
}

/// The short code of a URL: the lower-case hex digits of the first four bytes
/// of the SHA-256 digest of the URL's UTF-8 bytes.
pub open spec fn spec_short_code(url: Seq<char>) -> Seq<char> {
    hexstr::hex_of(digests::sha256_of(url).take(4))
}

/// Computes the short code of a URL; it is eight hex digits long.
pub fn generate_short_code(url: &str) -> (r: String)
    ensures
        r@ == spec_short_code(url@),
        r@.len() == 8,
{
    let d = digests::sha256_digest(url);
    let mut first4: Vec<u8> = Vec::new();
    let mut i: usize = 0;
    while i < 4
        invariant
            i <= 4,
            d@.len() == 32,
            d@ == digests::sha256_of(url@),
            first4@ == d@.take(i as int),
        decreases 4 - i,
    {
        first4.push(d[i]);
        i = i + 1;
        proof {
            assert(first4@ =~= d@.take(i as int));
        }
    }
    let r = hexstr::encode_hex(first4.as_slice());
    proof {
        hexstr::lemma_hex_of_len(first4@);
    }
    r
}

/// The later-entry-wins map that an association list denotes.
pub open spec fn map_of(ps: Seq<(String, String)>) -> Map<Seq<char>, Seq<char>>
    decreases ps.len(),
{
    if ps.len() == 0 {
        Map::empty()
    } else {
        map_of(ps.drop_last()).insert(ps.last().0@, ps.last().1@)
    }
}

/// No two entries of the association list carry the same code.
pub open spec fn unique_keys(ps: Seq<(String, String)>) -> bool {
    forall|i: int, j: int| 0 <= i < j < ps.len() ==> ps[i].0@ != ps[j].0@
}

/// A key is in the denoted map exactly when some entry carries it.
pub proof fn lemma_map_of_contains(ps: Seq<(String, String)>, k: Seq<char>)
    ensures
        map_of(ps).contains_key(k) <==> exists|i: int| 0 <= i < ps.len() && ps[i].0@ == k,
    decreases ps.len(),
{
    if ps.len() > 0 {
        lemma_map_of_contains(ps.drop_last(), k);
        if ps.last().0@ == k {
            assert(ps[ps.len() - 1].0@ == k);
        } else if map_of(ps).contains_key(k) {
            let i = choose|i: int| 0 <= i < ps.drop_last().len() && ps.drop_last()[i].0@ == k;
            assert(ps[i].0@ == k);
        } else {
            assert(forall|i: int|
                0 <= i < ps.len() - 1 ==> ps.drop_last()[i].0@ == ps[i].0@);
        }
    }
}

/// With unique codes, each entry is what the denoted map holds for its code.
pub proof fn lemma_map_of_index(ps: Seq<(String, String)>, i: int)
    requires
        unique_keys(ps),
        0 <= i < ps.len(),
    ensures
        map_of(ps).contains_key(ps[i].0@),
        map_of(ps)[ps[i].0@] == ps[i].1@,
    decreases ps.len(),
{
    if i == ps.len() - 1 {
    } else {
        assert(ps.drop_last()[i] == ps[i]);
        lemma_map_of_index(ps.drop_last(), i);
        assert(ps.last().0@ != ps[i].0@);
    }
}

/// Overwriting the entry that carries `k` denotes inserting `k` anew.
pub proof fn lemma_map_of_update(ps: Seq<(String, String)>, i: int, p: (String, String))
    requires
        unique_keys(ps),
        0 <= i < ps.len(),
        ps[i].0@ == p.0@,
    ensures
        map_of(ps.update(i, p)) =~= map_of(ps).insert(p.0@, p.1@),
    decreases ps.len(),
{
    if i == ps.len() - 1 {
        assert(ps.update(i, p).drop_last() =~= ps.drop_last());
        assert(ps.update(i, p).last() == p);
    } else {
        let qs = ps.update(i, p);
        assert(qs.drop_last() =~= ps.drop_last().update(i, p));
        assert(ps.drop_last()[i] == ps[i]);
        lemma_map_of_update(ps.drop_last(), i, p);
        assert(qs.last() == ps.last());
        assert(ps.last().0@ != p.0@);
        assert(map_of(qs) =~= map_of(ps.drop_last()).insert(p.0@, p.1@).insert(
            ps.last().0@,
            ps.last().1@,
        ));
        assert(map_of(ps.drop_last()).insert(p.0@, p.1@).insert(ps.last().0@, ps.last().1@)
            =~= map_of(ps.drop_last()).insert(ps.last().0@, ps.last().1@).insert(p.0@, p.1@));
    }
}

/// The persisted mapping from short codes to URLs, held as an association
/// list with unique codes.
pub struct UrlStore {
    pairs: Vec<(String, String)>,
}

impl View for UrlStore {
    type V = Map<Seq<char>, Seq<char>>;

    closed spec fn view(&self) -> Map<Seq<char>, Seq<char>> {
        map_of(self.pairs@)
    }
}

impl UrlStore {
    /// No two stored entries carry the same code.
    pub closed spec fn wf(&self) -> bool {
        unique_keys(self.pairs@)
    }

    /// An empty store.
    pub fn new() -> (s: UrlStore)
        ensures
            s.wf(),
            s@ =~= Map::<Seq<char>, Seq<char>>::empty(),
    {
        UrlStore { pairs: Vec::new() }
    }

    /// Inserts or overwrites the entry for `code`.
    fn insert_pair(&mut self, code: String, url: String)
        requires
            old(self).wf(),
        ensures
            final(self).wf(),
            final(self)@ == old(self)@.insert(code@, url@),
    {
        let n: usize = self.pairs.len();
        let mut i: usize = 0;
        while i < n
            invariant
                i <= n,
                n == self.pairs@.len(),
                self.pairs@ == old(self).pairs@,
                unique_keys(self.pairs@),
                forall|j: int| 0 <= j < i ==> self.pairs@[j].0@ != code@,
            decreases n - i,
        {
            if self.pairs[i].0 == code {
                proof {
                    lemma_map_of_update(self.pairs@, i as int, (code, url));
                }
                self.pairs[i] = (code, url);
                proof {
                    assert(unique_keys(self.pairs@));
                }
                return ;
            }
            i = i + 1;
        }
        proof {
            assert(forall|j: int| 0 <= j < self.pairs@.len() ==> self.pairs@[j].0@ != code@);
        }
        self.pairs.push((code, url));
        proof {
            assert(self.pairs@.drop_last() =~= old(self).pairs@);
            assert(unique_keys(self.pairs@));
        }
    }

    /// Computes the URL's short code, inserts or overwrites the entry for it
    /// (a colliding earlier URL is silently replaced), and returns the code.
    pub fn add(&mut self, url: &str) -> (code: String)
        requires
            old(self).wf(),
        ensures
            final(self).wf(),
            code@ == spec_short_code(url@),
            code@.len() == 8,
            final(self)@ == old(self)@.insert(code@, url@),
    {
        let code = generate_short_code(url);
        let code2 = code.clone();
        let url_owned = url.to_owned();
        self.insert_pair(code2, url_owned);
        code
    }

    /// Looks a code up; returns the stored URL, or nothing when the code is unknown.
    pub fn get(&self, code: &str) -> (r: Option<String>)
        requires
            self.wf(),
        ensures
            match r {
                Some(url) => self@.contains_key(code@) && url@ == self@[code@],
                None => !self@.contains_key(code@),
            },
    {
        let n: usize = self.pairs.len();
        let mut i: usize = 0;
        let code_owned = code.to_owned();
        while i < n
            invariant
                i <= n,
                n == self.pairs@.len(),
                unique_keys(self.pairs@),
                code_owned@ == code@,
                forall|j: int| 0 <= j < i ==> self.pairs@[j].0@ != code@,
            decreases n - i,
        {
            if self.pairs[i].0 == code_owned {
                proof {
                    lemma_map_of_index(self.pairs@, i as int);
                }
                return Some(self.pairs[i].1.clone());
            }
            i = i + 1;
        }
        proof {
            lemma_map_of_contains(self.pairs@, code@);
        }
        None
    }

    /// Returns every stored (code, URL) pair: each returned pair is in the
    /// store, every stored code appears exactly once, in unspecified order.
    pub fn list(&self) -> (r: Vec<(String, String)>)
        requires
            self.wf(),
        ensures
            forall|i: int|
                0 <= i < r@.len() ==> self@.contains_key(#[trigger] r@[i].0@) && self@[r@[i].0@]
                    == r@[i].1@,
            forall|k: Seq<char>|
                self@.contains_key(k) ==> exists|i: int| 0 <= i < r@.len() && #[trigger] r@[i].0@
                    == k,
            forall|i: int, j: int| 0 <= i < j < r@.len() ==> r@[i].0@ != r@[j].0@,
    {
        let n: usize = self.pairs.len();
        let mut r: Vec<(String, String)> = Vec::new();
        let mut i: usize = 0;
        while i < n
            invariant
                i <= n,
                n == self.pairs@.len(),
                unique_keys(self.pairs@),
                r@.len() == i,
                forall|j: int| 0 <= j < i ==> #[trigger] r@[j].0@ == self.pairs@[j].0@ && r@[j].1@
                    == self.pairs@[j].1@,
            decreases n - i,
        {
            let p = (self.pairs[i].0.clone(), self.pairs[i].1.clone());
            r.push(p);
            i = i + 1;
        }
        proof {
            assert forall|i: int| 0 <= i < r@.len() implies self@.contains_key(
                #[trigger] r@[i].0@,
            ) && self@[r@[i].0@] == r@[i].1@ by {
                lemma_map_of_index(self.pairs@, i);
            }
            assert forall|k: Seq<char>| self@.contains_key(k) implies exists|i: int|
                0 <= i < r@.len() && #[trigger] r@[i].0@ == k by {
                lemma_map_of_contains(self.pairs@, k);
                let i = choose|i: int| 0 <= i < self.pairs@.len() && self.pairs@[i].0@ == k;
                assert(r@[i].0@ == k);
            }
        }
        r
    }

    /// Rebuilds a store from persisted pairs; a code that occurs several
    /// times keeps its last URL, as repeated insertion would.
    pub fn from_pairs(pairs: &Vec<(String, String)>) -> (s: UrlStore)
        ensures
            s.wf(),
            s@ == map_of(pairs@),
    {
        let n: usize = pairs.len();
        let mut s = UrlStore::new();
        let mut i: usize = 0;
        while i < n
            invariant
                i <= n,
                n == pairs@.len(),
                s.wf(),
                s@ == map_of(pairs@.take(i as int)),
            decreases n - i,
        {
            let p = (pairs[i].0.clone(), pairs[i].1.clone());
            s.insert_pair(p.0, p.1);
            i = i + 1;
            proof {
                assert(pairs@.take(i as int).drop_last() =~= pairs@.take(i as int - 1));
            }
        }
        proof {
            assert(pairs@.take(n as int) =~= pairs@);
        }
        s
    }
}

/// The listed pairs are exactly the mapping: each pair is stored, and every
/// stored code is listed.
pub open spec fn listing_ok(m: Map<Seq<char>, Seq<char>>, pairs: Seq<(String, String)>) -> bool {
    &&& forall|i: int|
        0 <= i < pairs.len() ==> m.contains_key(#[trigger] pairs[i].0@) && m[pairs[i].0@]
            == pairs[i].1@
    &&& forall|k: Seq<char>|
        m.contains_key(k) ==> exists|i: int| 0 <= i < pairs.len() && #[trigger] pairs[i].0@ == k
}

/// What one request must have done to the mapping, and what it must report.
pub open spec fn action_outcome_ok(
    action: UrlAction,
    r: UrlOutcome,
    pre: Map<Seq<char>, Seq<char>>,
    post: Map<Seq<char>, Seq<char>>,
) -> bool {
    match action {
        UrlAction::Add { url } => (match r {
            UrlOutcome::Added { code } => code@ == spec_short_code(url@) && post == pre.insert(
                code@,
                url@,
            ),
            _ => false,
        }),
        UrlAction::Get { code } => post == pre && (match r {
            UrlOutcome::Found { url } => pre.contains_key(code@) && url@ == pre[code@],
            UrlOutcome::NotFound => !pre.contains_key(code@),
            _ => false,
        }),
        UrlAction::List => post == pre && (match r {
            UrlOutcome::Listing { pairs } => listing_ok(pre, pairs@),
            _ => false,
        }),
        UrlAction::Open { code } => post == pre && (match r {
            UrlOutcome::OpenUrl { url } => pre.contains_key(code@) && url@ == pre[code@],
            UrlOutcome::NotFound => !pre.contains_key(code@),
            _ => false,
        }),
    }
}

/// Performs one store request: `Add` mutates the store, the rest only read it.
pub fn apply_action(store: &mut UrlStore, action: &UrlAction) -> (r: UrlOutcome)
    requires
        old(store).wf(),
    ensures
        final(store).wf(),
        action_outcome_ok(*action, r, old(store)@, final(store)@),
{
    match action {
        UrlAction::Add { url } => {
            let code = store.add(url.as_str());
            UrlOutcome::Added { code }
        },
        UrlAction::Get { code } => match store.get(code.as_str()) {
            Some(url) => UrlOutcome::Found { url },
            None => UrlOutcome::NotFound,
        },
        UrlAction::List => UrlOutcome::Listing { pairs: store.list() },
        UrlAction::Open { code } => match store.get(code.as_str()) {
            Some(url) => UrlOutcome::OpenUrl { url },
            None => UrlOutcome::NotFound,
        },
    }
}

/// Adding a URL and then looking its code up returns that URL unchanged.
pub proof fn lemma_add_then_get(m: Map<Seq<char>, Seq<char>>, url: Seq<char>)
    ensures
        m.insert(spec_short_code(url), url).contains_key(spec_short_code(url)),
        m.insert(spec_short_code(url), url)[spec_short_code(url)] == url,
{
}

/// The short code depends on the URL alone: equal URLs get equal codes.
pub proof fn lemma_short_code_deterministic(url1: Seq<char>, url2: Seq<char>)
    requires
        url1 == url2,
    ensures
        spec_short_code(url1) == spec_short_code(url2),
{
}

/// A second URL whose code collides with an earlier entry silently
/// overwrites that entry; the rest of the mapping is untouched.
pub proof fn lemma_collision_overwrites(
    m: Map<Seq<char>, Seq<char>>,
    code: Seq<char>,
    url1: Seq<char>,
    url2: Seq<char>,
)
    ensures
        m.insert(code, url1).insert(code, url2) =~= m.insert(code, url2),
        m.insert(code, url1).insert(code, url2)[code] == url2,
{
}

} // verus!
