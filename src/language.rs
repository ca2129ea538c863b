//! The language registry: the supported grammars, the file extensions each
//! claims, and which grammars a file is tried with.
use vstd::prelude::*;

verus! {

/// A grammar that files can be searched with. The registry order is the
/// order of the variants.
#[derive(Clone, Copy, PartialEq, Eq, Debug, Structural)]
pub enum SupportedLanguage {
    Rust,
    Typescript,
    Javascript,
}

/// Every supported language, in registry order.
pub open spec fn registry() -> Seq<SupportedLanguage> {
    seq![SupportedLanguage::Rust, SupportedLanguage::Typescript, SupportedLanguage::Javascript]
}

/// The name by which a language is selected.
pub open spec fn name_of(l: SupportedLanguage) -> Seq<u8> {
    match l {
        SupportedLanguage::Rust => seq![114u8, 117u8, 115u8, 116u8],
        SupportedLanguage::Typescript => seq![
            116u8,
            121u8,
            112u8,
            101u8,
            115u8,
            99u8,
            114u8,
            105u8,
            112u8,
            116u8,
        ],
        SupportedLanguage::Javascript => seq![
            106u8,
            97u8,
            118u8,
            97u8,
            115u8,
            99u8,
            114u8,
            105u8,
            112u8,
            116u8,
        ],
    }
}

/// Language `l` claims files whose extension is `e`.
pub open spec fn claims(l: SupportedLanguage, e: Seq<u8>) -> bool {
    match l {
        SupportedLanguage::Rust => e == seq![114u8, 115u8],  // rs
        SupportedLanguage::Typescript => e == seq![116u8, 115u8] || e == seq![116u8, 115u8, 120u8],
        SupportedLanguage::Javascript => e == seq![106u8, 115u8] || e == seq![106u8, 115u8, 120u8]
            || e == seq![109u8, 106u8, 115u8] || e == seq![99u8, 106u8, 115u8],
    }
}

/// The languages of `ls` that claim extension `e`, in their order.
pub open spec fn claimants_in(ls: Seq<SupportedLanguage>, e: Seq<u8>) -> Seq<SupportedLanguage>
    decreases ls.len(),
{
    if ls.len() == 0 {
        Seq::empty()
    } else {
        let prev = claimants_in(ls.drop_last(), e);
        if claims(ls.last(), e) {
            prev.push(ls.last())
        } else {
            prev
        }
    }
}

/// The registered languages that claim extension `e`, in registry order.
pub open spec fn claimants(e: Seq<u8>) -> Seq<SupportedLanguage> {
    claimants_in(registry(), e)
}

/// The position of the last byte `b` in `s`, or -1.
pub open spec fn last_index_of(s: Seq<u8>, b: u8) -> int
    decreases s.len(),
{
    if s.len() == 0 {
        -1
    } else if s.last() == b {
        s.len() - 1
    } else {
        last_index_of(s.drop_last(), b)
    }
}

/// The last component of a path.
pub open spec fn file_name(p: Seq<u8>) -> Seq<u8> {
    p.subrange(last_index_of(p, 47u8) + 1, p.len() as int)
}

/// The extension of a path: what follows the last dot of its file name,
/// where that dot is not the name's first byte.
pub open spec fn extension(p: Seq<u8>) -> Option<Seq<u8>> {
    let name = file_name(p);
    let d = last_index_of(name, 46u8);
    if d <= 0 {
        None
    } else {
        Some(name.subrange(d + 1, name.len() as int))
    }
}

/// The languages a file is tried with: the forced one whatever the file's
/// extension, or else those that claim its extension.
pub open spec fn candidates(p: Seq<u8>, forced: Option<SupportedLanguage>) -> Seq<SupportedLanguage> {
    match forced {
        Some(l) => seq![l],
        None => match extension(p) {
            Some(e) => claimants(e),
            None => Seq::empty(),
        },
    }
}

proof fn lemma_last_index_bounds(s: Seq<u8>, b: u8)
    ensures
        -1 <= last_index_of(s, b) < s.len(),
        last_index_of(s, b) >= 0 ==> s[last_index_of(s, b)] == b,
    decreases s.len(),
{
    if s.len() > 0 {
        lemma_last_index_bounds(s.drop_last(), b);
    }
}

fn bytes_equal(a: &[u8], b: &[u8]) -> (r: bool)
    ensures
        r == (a@ == b@),
{
    if a.len() != b.len() {
        return false;
    }
    let mut i: usize = 0;
    while i < a.len()
        invariant
            a@.len() == b@.len(),
            i <= a@.len(),
            a@.subrange(0, i as int) =~= b@.subrange(0, i as int),
        decreases a.len() - i,
    {
        if a[i] != b[i] {
            assert(a@[i as int] != b@[i as int]);
            return false;
        }
        assert(a@.subrange(0, i + 1) =~= a@.subrange(0, i as int).push(a@[i as int]));
        assert(b@.subrange(0, i + 1) =~= b@.subrange(0, i as int).push(b@[i as int]));
        i = i + 1;
    }
    assert(a@ =~= a@.subrange(0, i as int));
    assert(b@ =~= b@.subrange(0, i as int));
    true
}

/// Position just past the last byte `b` of `s[start..]`, or `start` where
/// there is none.
fn after_last(s: &[u8], start: usize, b: u8) -> (r: usize)
    requires
        start <= s@.len(),
    ensures
        r == last_index_of(s@.subrange(start as int, s@.len() as int), b) + 1 + start,
{
    let mut i: usize = s.len();
    let ghost t = s@.subrange(start as int, s@.len() as int);
    assert(t.subrange(0, i - start) =~= t);
    while i > start
        invariant
            start <= i <= s@.len(),
            t == s@.subrange(start as int, s@.len() as int),
            last_index_of(t, b) == last_index_of(t.subrange(0, i - start), b),
            forall|j: int| i <= j < s@.len() ==> s@[j] != b,
        decreases i,
    {
        assert(t.subrange(0, i - start).drop_last() =~= t.subrange(0, i - 1 - start));
        if s[i - 1] == b {
            return i;
        }
        i = i - 1;
    }
    assert(t.subrange(0, 0) =~= Seq::<u8>::empty());
    start
}

/// The extension of path `p`, as `extension` defines it.
pub fn extension_of(p: &[u8]) -> (r: Option<Vec<u8>>)
    ensures
        match r {
            Some(e) => extension(p@) == Some(e@),
            None => extension(p@).is_none(),
        },
{
    assert(p@.subrange(0, p@.len() as int) =~= p@);
    let name_start = after_last(p, 0, 47u8);
    proof {
        lemma_last_index_bounds(p@, 47u8);
    }
    let ghost name = file_name(p@);
    let dot_end = after_last(p, name_start, 46u8);
    proof {
        lemma_last_index_bounds(name, 46u8);
    }
    if dot_end - name_start <= 1 {
        return None;
    }
    let mut e: Vec<u8> = Vec::new();
    let mut i: usize = dot_end;
    while i < p.len()
        invariant
            dot_end <= i <= p@.len(),
            e@ =~= p@.subrange(dot_end as int, i as int),
        decreases p.len() - i,
    {
        e.push(p[i]);
        i = i + 1;
    }
    assert(name.subrange(dot_end - name_start, name.len() as int) =~= p@.subrange(
        dot_end as int,
        p@.len() as int,
    ));
    Some(e)
}

impl SupportedLanguage {
    /// The language whose name is `name`, if one is.
    pub fn from_name(name: &[u8]) -> (r: Option<SupportedLanguage>)
        ensures
            match r {
                Some(l) => name_of(l) == name@,
                None => forall|i: int| 0 <= i < 3 ==> name_of(#[trigger] registry()[i]) != name@,
            },
    {
        if bytes_equal(name, &[114u8, 117u8, 115u8, 116u8]) {
            Some(SupportedLanguage::Rust)
        } else if bytes_equal(
            name,
            &[116u8, 121u8, 112u8, 101u8, 115u8, 99u8, 114u8, 105u8, 112u8, 116u8],
        ) {
            Some(SupportedLanguage::Typescript)
        } else if bytes_equal(
            name,
            &[106u8, 97u8, 118u8, 97u8, 115u8, 99u8, 114u8, 105u8, 112u8, 116u8],
        ) {
            Some(SupportedLanguage::Javascript)
        } else {
            None
        }
    }

    /// Whether this language claims files with extension `e`.
    pub fn claims_extension(&self, e: &[u8]) -> (r: bool)
        ensures
            r == claims(*self, e@),
    {
        match self {
            SupportedLanguage::Rust => bytes_equal(e, &[114u8, 115u8]),
            SupportedLanguage::Typescript => bytes_equal(e, &[116u8, 115u8]) || bytes_equal(
                e,
                &[116u8, 115u8, 120u8],
            ),
            SupportedLanguage::Javascript => bytes_equal(e, &[106u8, 115u8]) || bytes_equal(
                e,
                &[106u8, 115u8, 120u8],
            ) || bytes_equal(e, &[109u8, 106u8, 115u8]) || bytes_equal(e, &[99u8, 106u8, 115u8]),
        }
    }
}

/// Every registered language, in registry order.
pub fn all_languages() -> (r: Vec<SupportedLanguage>)
    ensures
        r@ == registry(),
{
    let mut r: Vec<SupportedLanguage> = Vec::new();
    r.push(SupportedLanguage::Rust);
    r.push(SupportedLanguage::Typescript);
    r.push(SupportedLanguage::Javascript);
    assert(r@ =~= registry());
    r
}

/// The registered languages that claim extension `e`, in registry order.
pub fn by_extension(e: &[u8]) -> (r: Vec<SupportedLanguage>)
    ensures
        r@ == claimants(e@),
{
    let all = all_languages();
    let mut r: Vec<SupportedLanguage> = Vec::new();
    let mut i: usize = 0;
    assert(all@.subrange(0, 0) =~= Seq::<SupportedLanguage>::empty());
    while i < all.len()
        invariant
            i <= all@.len(),
            r@ == claimants_in(all@.subrange(0, i as int), e@),
        decreases all.len() - i,
    {
        assert(all@.subrange(0, i + 1).drop_last() =~= all@.subrange(0, i as int));
        let l = all[i];
        if l.claims_extension(e) {
            r.push(l);
        }
        i = i + 1;
    }
    assert(all@.subrange(0, all@.len() as int) =~= all@);
    r
}

/// The languages that the file at `path` is tried with, in order.
pub fn candidate_languages(path: &[u8], forced: Option<SupportedLanguage>) -> (r: Vec<
    SupportedLanguage,
>)
    ensures
        r@ == candidates(path@, forced),
{
    match forced {
        Some(l) => {
            let mut r: Vec<SupportedLanguage> = Vec::new();
            r.push(l);
            assert(r@ =~= seq![l]);
            r
        },
        None => match extension_of(path) {
            Some(e) => by_extension(e.as_slice()),
            None => Vec::new(),
        },
    }
}

/// A file met while walking a directory is searched: its extension is
/// claimed by the forced language, or by some language where none is forced.
pub open spec fn walk_keeps(p: Seq<u8>, forced: Option<SupportedLanguage>) -> bool {
    match extension(p) {
        None => false,
        Some(e) => match forced {
            Some(l) => claims(l, e),
            None => claimants(e).len() > 0,
        },
    }
}

/// Whether a file met while walking a directory is searched.
pub fn walk_accepts(path: &[u8], forced: Option<SupportedLanguage>) -> (r: bool)
    ensures
        r == walk_keeps(path@, forced),
{
    match extension_of(path) {
        None => false,
        Some(e) => match forced {
            Some(l) => l.claims_extension(e.as_slice()),
            None => by_extension(e.as_slice()).len() > 0,
        },
    }
}

/// A forced language is tried on every file, whatever its extension.
pub proof fn lemma_forced_language_always_tried(p: Seq<u8>, l: SupportedLanguage)
    ensures
        candidates(p, Some(l)) == seq![l],
{
}

/// Without a forced language, a file whose extension no language claims is
/// tried with none.
pub proof fn lemma_unclaimed_file_skipped(p: Seq<u8>)
    requires
        match extension(p) {
            None => true,
            Some(e) => forall|i: int| 0 <= i < 3 ==> !claims(#[trigger] registry()[i], e),
        },
    ensures
        candidates(p, None).len() == 0,
{
    match extension(p) {
        None => {},
        Some(e) => {
            assert(!claims(registry()[0], e));
            assert(!claims(registry()[1], e));
            assert(!claims(registry()[2], e));
            let r = registry();
            assert(r.drop_last() =~= seq![SupportedLanguage::Rust, SupportedLanguage::Typescript]);
            assert(r.drop_last().drop_last() =~= seq![SupportedLanguage::Rust]);
            assert(r.drop_last().drop_last().drop_last() =~= Seq::<SupportedLanguage>::empty());
            reveal_with_fuel(claimants_in, 4);
        },
    }
}

} // verus!
