use vstd::prelude::*;

verus! {

/// The flat key/value parameter set the provider's query-string API expects:
/// an unordered mapping from parameter name to parameter value, keys unique.
/// Pairs are kept in insertion order so that serializing them is
/// deterministic, but the primary view and equality ignore that order.
#[derive(Debug)]
pub struct RequestParameters {
    pairs: Vec<(String, String)>,
}

/// The mapping described by a sequence of key/value pairs, a later pair
/// overriding an earlier one with the same key.
pub open spec fn pairs_map(s: Seq<(Seq<char>, Seq<char>)>) -> Map<Seq<char>, Seq<char>>
    decreases s.len(),
{
    if s.len() == 0 {
        Map::empty()
    } else {
        pairs_map(s.drop_last()).insert(s.last().0, s.last().1)
    }
}

/// No two pairs of the sequence share a key.
pub open spec fn keys_distinct(s: Seq<(Seq<char>, Seq<char>)>) -> bool {
    forall|i: int, j: int| 0 <= i < j < s.len() ==> s[i].0 != s[j].0
}

proof fn lemma_pairs_map_contains(s: Seq<(Seq<char>, Seq<char>)>, k: Seq<char>)
    ensures
        pairs_map(s).dom().contains(k) <==> (exists|i: int| 0 <= i < s.len() && s[i].0 == k),
    decreases s.len(),
{
    if s.len() > 0 {
        let sub = s.drop_last();
        lemma_pairs_map_contains(sub, k);
        if pairs_map(s).dom().contains(k) {
            if k == s.last().0 {
                assert(s[s.len() - 1].0 == k);
            } else {
                let i = choose|i: int| 0 <= i < sub.len() && sub[i].0 == k;
                assert(s[i].0 == k);
            }
        }
        if exists|i: int| 0 <= i < s.len() && s[i].0 == k {
            let i = choose|i: int| 0 <= i < s.len() && s[i].0 == k;
            if i < s.len() - 1 {
                assert(sub[i].0 == k);
            }
        }
    }
}

proof fn lemma_pairs_map_index(s: Seq<(Seq<char>, Seq<char>)>, i: int)
    requires
        keys_distinct(s),
        0 <= i < s.len(),
    ensures
        pairs_map(s).dom().contains(s[i].0),
        pairs_map(s)[s[i].0] == s[i].1,
    decreases s.len(),
{
    let sub = s.drop_last();
    if i < s.len() - 1 {
        assert(keys_distinct(sub)) by {
            assert(forall|x: int, y: int|
                0 <= x < y < sub.len() ==> s[x].0 != s[y].0);
        }
        lemma_pairs_map_index(sub, i);
        assert(s[i].0 != s.last().0);
    }
}

proof fn lemma_pairs_map_remove(s: Seq<(Seq<char>, Seq<char>)>, i: int)
    requires
        keys_distinct(s),
        0 <= i < s.len(),
    ensures
        pairs_map(s.remove(i)) == pairs_map(s).remove(s[i].0),
    decreases s.len(),
{
    let sub = s.drop_last();
    let k = s[i].0;
    if i == s.len() - 1 {
        assert(s.remove(i) =~= sub);
        assert(forall|j: int| 0 <= j < sub.len() ==> s[j].0 != k);
        lemma_pairs_map_contains(sub, k);
        assert(pairs_map(s).remove(k) =~= pairs_map(sub));
    } else {
        assert(keys_distinct(sub)) by {
            assert(forall|x: int, y: int|
                0 <= x < y < sub.len() ==> s[x].0 != s[y].0);
        }
        lemma_pairs_map_remove(sub, i);
        assert(s.remove(i).drop_last() =~= sub.remove(i));
        assert(s.remove(i).last() == s.last());
        assert(s.remove(i).len() > 0);
        assert(pairs_map(s.remove(i))
            == pairs_map(sub.remove(i)).insert(s.last().0, s.last().1));
        assert(k != s.last().0);
        assert(pairs_map(sub).insert(s.last().0, s.last().1).remove(k)
            =~= pairs_map(sub).remove(k).insert(s.last().0, s.last().1));
    }
}

proof fn lemma_maps_equal(a: Seq<(Seq<char>, Seq<char>)>, b: Seq<(Seq<char>, Seq<char>)>)
    requires
        keys_distinct(a),
        keys_distinct(b),
        forall|x: int| 0 <= x < a.len() ==> pairs_map(b).dom().contains(#[trigger] a[x].0)
            && pairs_map(b)[a[x].0] == a[x].1,
        forall|y: int| 0 <= y < b.len() ==> pairs_map(a).dom().contains(#[trigger] b[y].0),
    ensures
        pairs_map(a) == pairs_map(b),
{
    let ma = pairs_map(a);
    let mb = pairs_map(b);
    assert forall|k: Seq<char>| ma.dom().contains(k) == mb.dom().contains(k) by {
        lemma_pairs_map_contains(a, k);
        lemma_pairs_map_contains(b, k);
        if ma.dom().contains(k) {
            let x = choose|x: int| 0 <= x < a.len() && a[x].0 == k;
            lemma_pairs_map_index(a, x);
            assert(mb.dom().contains(a[x].0));
        }
        if mb.dom().contains(k) {
            let y = choose|y: int| 0 <= y < b.len() && b[y].0 == k;
            assert(ma.dom().contains(b[y].0));
        }
    }
    assert(ma.dom() =~= mb.dom());
    assert forall|k: Seq<char>| ma.dom().contains(k) implies ma[k] == mb[k] by {
        lemma_pairs_map_contains(a, k);
        let x = choose|x: int| 0 <= x < a.len() && a[x].0 == k;
        lemma_pairs_map_index(a, x);
        assert(mb.dom().contains(a[x].0));
        assert(mb[a[x].0] == a[x].1);
    }
    assert(ma =~= mb);
}

/// The views of a sequence of owned pairs.
pub open spec fn views_of(s: Seq<(String, String)>) -> Seq<(Seq<char>, Seq<char>)> {
    Seq::new(s.len(), |i: int| (s[i].0@, s[i].1@))
}

/// Position of the first pair carrying `k`, if any.
fn find_key(pairs: &Vec<(String, String)>, k: &String) -> (r: Option<usize>)
    ensures
        match r {
            Some(i) => i < pairs@.len() && pairs@[i as int].0@ == k@,
            None => forall|j: int| 0 <= j < pairs@.len() ==> pairs@[j].0@ != k@,
        },
{
    let n = pairs.len();
    let mut i: usize = 0;
    while i < n
        invariant
            n == pairs@.len(),
            i <= n,
            forall|j: int| 0 <= j < i ==> pairs@[j].0@ != k@,
        decreases n - i,
    {
        if pairs[i].0 == *k {
            return Some(i);
        }
        i = i + 1;
    }
    None
}

impl RequestParameters {
    /// The pairs in insertion order, as character sequences.
    pub closed spec fn pairs_view(&self) -> Seq<(Seq<char>, Seq<char>)> {
        views_of(self.pairs@)
    }

    #[verifier::type_invariant]
    spec fn wf(self) -> bool {
        keys_distinct(self.pairs_view())
    }

    /// An empty parameter set.
    pub fn new() -> (r: RequestParameters)
        ensures
            r@ == Map::<Seq<char>, Seq<char>>::empty(),
            r.pairs_view() == Seq::<(Seq<char>, Seq<char>)>::empty(),
    {
        let r = RequestParameters { pairs: Vec::new() };
        proof {
            assert(r.pairs_view() =~= Seq::<(Seq<char>, Seq<char>)>::empty());
        }
        r
    }

    /// How many parameters are set.
    pub fn len(&self) -> (r: usize)
        ensures
            r == self.pairs_view().len(),
    {
        self.pairs.len()
    }

    /// Binds `k` to `v`, replacing any earlier binding of `k`.
    pub fn insert(&mut self, k: String, v: String)
        ensures
            final(self)@ == old(self)@.insert(k@, v@),
            !old(self)@.dom().contains(k@) ==> final(self).pairs_view()
                == old(self).pairs_view().push((k@, v@)),
    {
        proof {
            use_type_invariant(&*self);
        }
        let ghost orig = self.pairs_view();
        let mut pairs: Vec<(String, String)> = Vec::new();
        std::mem::swap(&mut pairs, &mut self.pairs);
        let pos = find_key(&pairs, &k);
        proof {
            lemma_pairs_map_contains(orig, k@);
        }
        match pos {
            Some(i) => {
                proof {
                    lemma_pairs_map_remove(orig, i as int);
                }
                pairs.remove(i);
                proof {
                    assert(views_of(pairs@) =~= orig.remove(i as int));
                }
            }
            None => {},
        }
        let ghost trimmed = views_of(pairs@);
        pairs.push((k, v));
        proof {
            assert(views_of(pairs@) =~= trimmed.push((k@, v@)));
            assert(views_of(pairs@).drop_last() =~= trimmed);
            assert(pairs_map(views_of(pairs@)) == pairs_map(trimmed).insert(k@, v@));
            match pos {
                Some(i) => {
                    let ghost ik = orig[i as int].0;
                    assert(forall|j: int|
                        0 <= j < orig.len() && j != i ==> orig[j].0 != ik);
                    assert(forall|j: int|
                        0 <= j < trimmed.len() ==> trimmed[j].0 != k@);
                    assert(keys_distinct(trimmed));
                    assert(pairs_map(trimmed).insert(k@, v@)
                        =~= pairs_map(orig).insert(k@, v@));
                }
                None => {
                    assert(trimmed =~= orig);
                }
            }
            assert(keys_distinct(views_of(pairs@)));
        }
        self.pairs = pairs;
    }

    /// The credential parameters the provider expects: `email`, `tkn`, and,
    /// when the credentials are scoped to a zone, `z`. Nothing else: an
    /// absent domain adds no key at all.
    pub fn from_auth(auth: &crate::Authentication) -> (r: RequestParameters)
        ensures
            auth.domain is None ==> r@ == map![
                ("email")@ => auth.email@,
                ("tkn")@ => auth.token@,
            ],
            auth.domain is None ==> r.pairs_view() == seq![
                (("email")@, auth.email@),
                (("tkn")@, auth.token@),
            ],
            auth.domain matches Some(d) ==> r@ == map![
                ("email")@ => auth.email@,
                ("tkn")@ => auth.token@,
                ("z")@ => d@,
            ],
            auth.domain matches Some(d) ==> r.pairs_view() == seq![
                (("email")@, auth.email@),
                (("tkn")@, auth.token@),
                (("z")@, d@),
            ],
    {
        let mut r = RequestParameters::new();
        r.insert("email".to_owned(), auth.email.clone());
        r.insert("tkn".to_owned(), auth.token.clone());
        match &auth.domain {
            Some(d) => {
                r.insert("z".to_owned(), d.clone());
            }
            None => {}
        }
        proof {
            reveal_strlit("email");
            reveal_strlit("tkn");
            reveal_strlit("z");
            assert(("email")@.len() == 5);
            assert(("tkn")@.len() == 3);
            assert(("z")@.len() == 1);
            match &auth.domain {
                None => {
                    assert(r@ =~= map![("email")@ => auth.email@, ("tkn")@ => auth.token@]);
                    assert(r.pairs_view() =~= seq![
                        (("email")@, auth.email@),
                        (("tkn")@, auth.token@),
                    ]);
                }
                Some(d) => {
                    assert(r@ =~= map![
                        ("email")@ => auth.email@,
                        ("tkn")@ => auth.token@,
                        ("z")@ => d@,
                    ]);
                    assert(r.pairs_view() =~= seq![
                        (("email")@, auth.email@),
                        (("tkn")@, auth.token@),
                        (("z")@, d@),
                    ]);
                }
            }
        }
        r
    }

    /// The pair at position `i`, in insertion order.
    pub fn pair_at<'a>(&'a self, i: usize) -> (r: (&'a String, &'a String))
        requires
            i < self.pairs_view().len(),
        ensures
            r.0@ == self.pairs_view()[i as int].0,
            r.1@ == self.pairs_view()[i as int].1,
    {
        (&self.pairs[i].0, &self.pairs[i].1)
    }

    /// The value bound to `key`, if any.
    pub fn get<'a>(&'a self, key: &String) -> (r: Option<&'a String>)
        ensures
            match r {
                Some(v) => self@.dom().contains(key@) && self@[key@] == v@,
                None => !self@.dom().contains(key@),
            },
    {
        proof {
            use_type_invariant(&*self);
        }
        let n = self.pairs.len();
        let mut i: usize = 0;
        while i < n
            invariant
                n == self.pairs@.len(),
                i <= n,
                keys_distinct(self.pairs_view()),
                self@ == pairs_map(self.pairs_view()),
                forall|j: int| 0 <= j < i ==> self.pairs@[j].0@ != key@,
            decreases n - i,
        {
            if self.pairs[i].0 == *key {
                proof {
                    lemma_pairs_map_index(self.pairs_view(), i as int);
                }
                return Some(&self.pairs[i].1);
            }
            i = i + 1;
        }
        proof {
            lemma_pairs_map_contains(self.pairs_view(), key@);
        }
        None
    }
}

impl View for RequestParameters {
    type V = Map<Seq<char>, Seq<char>>;

    closed spec fn view(&self) -> Map<Seq<char>, Seq<char>> {
        pairs_map(self.pairs_view())
    }
}

impl PartialEq for RequestParameters {
    /// Two parameter sets are equal when they bind the same keys to the same
    /// values, whatever order the pairs were added in.
    fn eq(&self, other: &Self) -> (r: bool) {
        proof {
            use_type_invariant(&*self);
            use_type_invariant(&*other);
        }
        let n = self.pairs.len();
        let mut i: usize = 0;
        while i < n
            invariant
                n == self.pairs@.len(),
                i <= n,
                keys_distinct(self.pairs_view()),
                keys_distinct(other.pairs_view()),
                self@ == pairs_map(self.pairs_view()),
                other@ == pairs_map(other.pairs_view()),
                forall|j: int| 0 <= j < i ==> other@.dom().contains(#[trigger] self.pairs_view()[j].0)
                    && other@[self.pairs_view()[j].0] == self.pairs_view()[j].1,
            decreases n - i,
        {
            proof {
                lemma_pairs_map_index(self.pairs_view(), i as int);
            }
            match other.get(&self.pairs[i].0) {
                Some(v) => {
                    if !(*v == self.pairs[i].1) {
                        return false;
                    }
                }
                None => {
                    return false;
                }
            }
            i = i + 1;
        }
        let m = other.pairs.len();
        let mut j: usize = 0;
        while j < m
            invariant
                m == other.pairs@.len(),
                j <= m,
                n == self.pairs@.len(),
                keys_distinct(self.pairs_view()),
                keys_distinct(other.pairs_view()),
                self@ == pairs_map(self.pairs_view()),
                other@ == pairs_map(other.pairs_view()),
                forall|x: int| 0 <= x < n ==> other@.dom().contains(#[trigger] self.pairs_view()[x].0)
                    && other@[self.pairs_view()[x].0] == self.pairs_view()[x].1,
                forall|y: int| 0 <= y < j ==> self@.dom().contains(#[trigger] other.pairs_view()[y].0),
            decreases m - j,
        {
            proof {
                lemma_pairs_map_index(other.pairs_view(), j as int);
            }
            match self.get(&other.pairs[j].0) {
                Some(_) => {}
                None => {
                    return false;
                }
            }
            j = j + 1;
        }
        proof {
            lemma_maps_equal(self.pairs_view(), other.pairs_view());
        }
        true
    }
}

impl vstd::std_specs::cmp::PartialEqSpecImpl for RequestParameters {
    open spec fn obeys_eq_spec() -> bool {
        true
    }

    open spec fn eq_spec(&self, other: &Self) -> bool {
        self@ == other@
    }
}

} // verus!
