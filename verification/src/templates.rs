//! The template cache and template lookup on a normalised 960 x 540 screen.
//!
//! Templates are RGB images (3 bytes per pixel) keyed by `category/file.png`. A key
//! `category/name` also stands for its variants: keys `category?prefix_name`, where
//! one character follows the category and the part before `name` ends with `_`
//! (for example `seeds/1_carrot.png` and `seeds/new_carrot.png` for
//! `seeds/carrot.png`).
use std::sync::Arc;
use vstd::prelude::*;
use crate::text::{chars_of, chars_eq, starts_with_chars, ends_with_chars, has_prefix, has_suffix};
use crate::recognize::{FastRecognizer, spec_find_template_step, scan_visits, scan_limit, step_inputs_ok};
use crate::matching::found_view;

verus! {

/// Width of the normalised screen, in pixels.
pub const BASE_W: u32 = 960;

/// Height of the normalised screen, in pixels.
pub const BASE_H: u32 = 540;

/// A template held in memory: its size and its RGB pixels.
pub struct CachedTemplate {
    pub dimensions: (u32, u32),
    pub data: Arc<Vec<u8>>,
}

/// What the logic reads of a template.
pub struct TemplateView {
    pub width: u32,
    pub height: u32,
    pub data: Seq<u8>,
}

impl CachedTemplate {
    /// What the logic reads of the template.
    pub open spec fn tview(&self) -> TemplateView {
        TemplateView { width: self.dimensions.0, height: self.dimensions.1, data: self.data@ }
    }
}

/// The templates by key, in insertion order; no key occurs twice.
pub struct TemplateStore {
    entries: Vec<(String, CachedTemplate)>,
}

/// No key occurs twice.
pub open spec fn keys_distinct(e: Seq<(Seq<char>, TemplateView)>) -> bool {
    forall|i: int, j: int| 0 <= i < j < e.len() ==> e[i].0 != e[j].0
}

/// The entry of key `k`, if any.
pub open spec fn lookup(e: Seq<(Seq<char>, TemplateView)>, k: Seq<char>) -> Option<TemplateView> {
    if exists|i: int| 0 <= i < e.len() && e[i].0 == k {
        Some(e[choose|i: int| 0 <= i < e.len() && e[i].0 == k].1)
    } else {
        None
    }
}

/// In a store without repeated keys, each entry is what its key looks up.
pub proof fn lemma_lookup_at(e: Seq<(Seq<char>, TemplateView)>, i: int)
    requires
        keys_distinct(e),
        0 <= i < e.len(),
    ensures
        lookup(e, e[i].0) == Some(e[i].1),
{
    let j = choose|j: int| 0 <= j < e.len() && e[j].0 == e[i].0;
    assert(0 <= j < e.len() && e[j].0 == e[i].0);
}

/// The index of key `k` (where it is present).
pub open spec fn key_index(e: Seq<(Seq<char>, TemplateView)>, k: Seq<char>) -> int {
    choose|i: int| 0 <= i < e.len() && e[i].0 == k
}

/// The entries after storing `tv` under `k`: the entry of `k` replaced where it is
/// present, a new last entry otherwise.
pub open spec fn store_insert(e: Seq<(Seq<char>, TemplateView)>, k: Seq<char>, tv: TemplateView) -> Seq<(Seq<char>, TemplateView)> {
    if exists|i: int| 0 <= i < e.len() && e[i].0 == k {
        e.update(key_index(e, k), (k, tv))
    } else {
        e.push((k, tv))
    }
}

proof fn lemma_key_index(e: Seq<(Seq<char>, TemplateView)>, k: Seq<char>, i: int)
    requires
        keys_distinct(e),
        0 <= i < e.len(),
        e[i].0 == k,
    ensures
        key_index(e, k) == i,
{
    let j = key_index(e, k);
    assert(0 <= j < e.len() && e[j].0 == k);
}

/// Reading after storing: the key stored reads back the template stored, every other
/// key reads what it read before, and no key occurs twice.
pub proof fn lemma_lookup_after_insert(e: Seq<(Seq<char>, TemplateView)>, k: Seq<char>, tv: TemplateView, k2: Seq<char>)
    requires
        keys_distinct(e),
    ensures
        keys_distinct(store_insert(e, k, tv)),
        lookup(store_insert(e, k, tv), k2) == if k2 == k { Some(tv) } else { lookup(e, k2) },
{
    let n = store_insert(e, k, tv);
    let p = if exists|i: int| 0 <= i < e.len() && e[i].0 == k { key_index(e, k) } else { e.len() as int };
    if exists|i: int| 0 <= i < e.len() && e[i].0 == k {
        let i = key_index(e, k);
        assert(0 <= i < e.len() && e[i].0 == k);
    }
    assert(keys_distinct(n)) by {
        assert forall|a: int, b: int| 0 <= a < b < n.len() implies n[a].0 != n[b].0 by {
            if a != p && b != p {
                assert(n[a] == e[a] && n[b] == e[b]);
            } else if a == p {
                assert(n[b] == e[b]);
                if p < e.len() {
                    assert(e[p].0 == k);
                }
            } else {
                assert(n[a] == e[a]);
                if p < e.len() {
                    assert(e[p].0 == k);
                }
            }
        }
    }
    assert(n[p] == (k, tv));
    lemma_lookup_at(n, p);
    if k2 != k {
        if exists|i: int| 0 <= i < e.len() && e[i].0 == k2 {
            let i = choose|i: int| 0 <= i < e.len() && e[i].0 == k2;
            lemma_lookup_at(e, i);
            assert(i != p);
            assert(n[i] == e[i]);
            lemma_lookup_at(n, i);
        } else {
            assert forall|i: int| 0 <= i < n.len() implies n[i].0 != k2 by {
                if i != p {
                    assert(n[i] == e[i]);
                }
            }
        }
    }
}

impl View for TemplateStore {
    type V = Seq<(Seq<char>, TemplateView)>;

    closed spec fn view(&self) -> Seq<(Seq<char>, TemplateView)> {
        Seq::new(self.entries@.len(), |i: int| (self.entries@[i].0@, self.entries@[i].1.tview()))
    }
}

impl TemplateStore {
    #[verifier::type_invariant]
    spec fn inv(self) -> bool {
        keys_distinct(self@)
    }

    /// An empty store.
    pub fn new() -> (r: Self)
        ensures
            r@ == Seq::<(Seq<char>, TemplateView)>::empty(),
    {
        let r = TemplateStore { entries: Vec::new() };
        assert(r@ =~= Seq::<(Seq<char>, TemplateView)>::empty());
        r
    }

    /// The number of templates.
    pub fn len(&self) -> (n: usize)
        ensures
            n == self@.len(),
    {
        self.entries.len()
    }

    /// Whether the store holds no template.
    pub fn is_empty(&self) -> (b: bool)
        ensures
            b == (self@.len() == 0),
    {
        self.entries.len() == 0
    }

    /// The position of key `key`, if present.
    fn position(&self, key: &[char]) -> (r: Option<usize>)
        ensures
            match r {
                Some(i) => i < self@.len() && self@[i as int].0 == key@,
                None => forall|i: int| 0 <= i < self@.len() ==> self@[i].0 != key@,
            },
    {
        let mut i: usize = 0;
        while i < self.entries.len()
            invariant
                i <= self@.len(),
                self@.len() == self.entries@.len(),
                forall|j: int| 0 <= j < i ==> self@[j].0 != key@,
            decreases self@.len() - i,
        {
            let k = chars_of(self.entries[i].0.as_str());
            if chars_eq(k.as_slice(), key) {
                return Some(i);
            }
            i = i + 1;
        }
        None
    }

    /// The template stored under `key`.
    pub fn get(&self, key: &str) -> (r: Option<&CachedTemplate>)
        ensures
            match r {
                Some(t) => lookup(self@, key@) == Some(t.tview()),
                None => lookup(self@, key@) is None,
            },
    {
        proof {
            use_type_invariant(self);
        }
        let k = chars_of(key);
        match self.position(k.as_slice()) {
            Some(i) => {
                proof {
                    lemma_lookup_at(self@, i as int);
                }
                Some(&self.entries[i].1)
            },
            None => None,
        }
    }

    /// Stores `t` under `key`, replacing the template that was stored under it.
    pub fn insert(&mut self, key: String, t: CachedTemplate)
        ensures
            final(self)@ == store_insert(old(self)@, key@, t.tview()),
            lookup(final(self)@, key@) == Some(t.tview()),
            forall|k: Seq<char>| k != key@ ==> #[trigger] lookup(final(self)@, k) == lookup(old(self)@, k),
    {
        proof {
            use_type_invariant(&*self);
        }
        let ghost old_view = self@;
        let ghost tv = t.tview();
        let ghost kv = key@;
        let kc = chars_of(key.as_str());
        let pos = self.position(kc.as_slice());
        let mut entries = Vec::new();
        std::mem::swap(&mut entries, &mut self.entries);
        match pos {
            Some(i) => {
                entries.set(i, (key, t));
            },
            None => {
                entries.push((key, t));
            },
        }
        let ghost new_view = Seq::new(
            entries@.len(),
            |i: int| (entries@[i].0@, entries@[i].1.tview()),
        );
        proof {
            match pos {
                Some(i) => {
                    lemma_key_index(old_view, kv, i as int);
                    assert(new_view =~= old_view.update(i as int, (kv, tv)));
                },
                None => {
                    assert(new_view =~= old_view.push((kv, tv)));
                },
            }
            assert(new_view == store_insert(old_view, kv, tv));
            lemma_lookup_after_insert(old_view, kv, tv, kv);
            assert forall|k: Seq<char>| k != kv implies #[trigger] lookup(new_view, k) == lookup(old_view, k) by {
                lemma_lookup_after_insert(old_view, kv, tv, k);
            }
        }
        self.entries = entries;
        assert(self@ =~= new_view);
    }

    /// The keys, in store order.
    pub fn keys(&self) -> (r: Vec<String>)
        ensures
            r@.len() == self@.len(),
            forall|i: int| 0 <= i < r@.len() ==> #[trigger] r@[i]@ == self@[i].0,
    {
        let mut r: Vec<String> = Vec::new();
        let mut i: usize = 0;
        while i < self.entries.len()
            invariant
                i <= self@.len(),
                self@.len() == self.entries@.len(),
                r@.len() == i,
                forall|j: int| 0 <= j < i ==> #[trigger] r@[j]@ == self@[j].0,
            decreases self@.len() - i,
        {
            r.push(self.entries[i].0.clone());
            i = i + 1;
        }
        r
    }
}

} // verus!

verus! {

/// The position of the first `/` in `t`, or -1.
pub open spec fn first_slash(t: Seq<char>) -> int
    decreases t.len(),
{
    if t.len() == 0 {
        -1
    } else {
        let r = first_slash(t.drop_last());
        if r >= 0 {
            r
        } else if t.last() == '/' {
            t.len() - 1
        } else {
            -1
        }
    }
}

/// The category part of a key (before its first `/`).
pub open spec fn key_category(t: Seq<char>) -> Seq<char> {
    t.subrange(0, first_slash(t))
}

/// The name part of a key (after its first `/`).
pub open spec fn key_base(t: Seq<char>) -> Seq<char> {
    t.subrange(first_slash(t) + 1, t.len() as int)
}

/// `k` begins with the category and ends with the name of `t`, and is not `t`.
pub open spec fn shares_ends(t: Seq<char>, k: Seq<char>) -> bool {
    &&& first_slash(t) >= 0
    &&& k != t
    &&& has_prefix(k, key_category(t))
    &&& has_suffix(k, key_base(t))
}

/// `k` is `t` or one of its variants.
pub open spec fn is_variant(t: Seq<char>, k: Seq<char>) -> bool {
    ||| k == t
    ||| {
        &&& shares_ends(t, k)
        &&& key_category(t).len() + 1 < k.len() - key_base(t).len()
        &&& k[k.len() - key_base(t).len() - 1] == '_'
    }
}

/// A key that begins with the category and ends with the name of `t` has a one-byte
/// character after the category, and the two do not overlap.
pub open spec fn variant_key_ok(t: Seq<char>, k: Seq<char>) -> bool {
    shares_ends(t, k) ==> {
        &&& key_category(t).len() + 1 <= k.len() - key_base(t).len()
        &&& (k[key_category(t).len() as int] as u32) < 128
    }
}

/// The screen buffer and template can be scanned.
pub open spec fn screen_scan_ok(screen_len: int, tv: TemplateView, threshold: int, max_scan_w: Option<usize>) -> bool {
    scan_visits(BASE_W as int, BASE_H as int, tv.width as int, tv.height as int, scan_limit(BASE_W as int, max_scan_w))
        ==> step_inputs_ok(screen_len, BASE_W as int, BASE_H as int, 4, tv.data.len() as int,
            tv.width as int, tv.height as int, threshold)
}

/// Finding template `tv` on the 960 x 540 RGBA screen.
pub open spec fn spec_find_on_screen(screen: Seq<u8>, tv: TemplateView, threshold: int, max_scan_w: Option<usize>) -> Option<(int, int, int)> {
    spec_find_template_step(screen, BASE_W as int, BASE_H as int, 4, tv.data, tv.width as int, tv.height as int, threshold, max_scan_w)
}

/// The first entry from position `i` on, in store order, that is `t` or a variant of
/// it and is found on the screen: its key, position, size and score.
pub open spec fn first_variant_found(
    e: Seq<(Seq<char>, TemplateView)>,
    t: Seq<char>,
    screen: Seq<u8>,
    threshold: int,
    max_scan_w: Option<usize>,
    i: int,
) -> Option<(Seq<char>, int, int, int, int, int)>
    decreases e.len() - i,
{
    if i < 0 || i >= e.len() {
        None
    } else if is_variant(t, e[i].0) && spec_find_on_screen(screen, e[i].1, threshold, max_scan_w) is Some {
        let f = spec_find_on_screen(screen, e[i].1, threshold, max_scan_w).unwrap();
        Some((e[i].0, f.0, f.1, e[i].1.width as int, e[i].1.height as int, f.2))
    } else {
        first_variant_found(e, t, screen, threshold, max_scan_w, i + 1)
    }
}

/// The view of a variant search result.
pub open spec fn variant_view(r: Option<(String, usize, usize, u32, u32, u32)>) -> Option<(Seq<char>, int, int, int, int, int)> {
    match r {
        Some(v) => Some((v.0@, v.1 as int, v.2 as int, v.3 as int, v.4 as int, v.5 as int)),
        None => None,
    }
}

/// The position of the first `/`.
fn find_slash(t: &[char]) -> (r: Option<usize>)
    ensures
        match r {
            Some(i) => i as int == first_slash(t@),
            None => first_slash(t@) == -1,
        },
{
    let mut i: usize = 0;
    while i < t.len()
        invariant
            i <= t@.len(),
            first_slash(t@.subrange(0, i as int)) == -1,
        decreases t@.len() - i,
    {
        assert(t@.subrange(0, i as int + 1).drop_last() =~= t@.subrange(0, i as int));
        if t[i] == '/' {
            proof {
                lemma_first_slash_prefix(t@, i as int + 1);
            }
            return Some(i);
        }
        i = i + 1;
    }
    assert(t@.subrange(0, t@.len() as int) =~= t@);
    None
}

/// A first `/` found in a prefix is the first `/` of the whole.
proof fn lemma_first_slash_prefix(t: Seq<char>, n: int)
    requires
        0 <= n <= t.len(),
        first_slash(t.subrange(0, n)) >= 0,
    ensures
        first_slash(t) == first_slash(t.subrange(0, n)),
    decreases t.len() - n,
{
    if n < t.len() {
        assert(t.subrange(0, n + 1).drop_last() =~= t.subrange(0, n));
        lemma_first_slash_prefix(t, n + 1);
    } else {
        assert(t.subrange(0, n) =~= t);
    }
}

proof fn lemma_first_slash_bounds(t: Seq<char>)
    ensures
        -1 <= first_slash(t) < t.len(),
        first_slash(t) >= 0 ==> t[first_slash(t)] == '/',
    decreases t.len(),
{
    if t.len() > 0 {
        lemma_first_slash_bounds(t.drop_last());
    }
}

/// Whether `k` is `t` or one of its variants, given the position of the first `/` of `t`.
fn variant_check(t: &[char], slash: Option<usize>, k: &[char]) -> (r: bool)
    requires
        match slash {
            Some(p) => p as int == first_slash(t@),
            None => first_slash(t@) == -1,
        },
        -1 <= first_slash(t@) < t@.len(),
    ensures
        r == is_variant(t@, k@),
{
    if chars_eq(k, t) {
        return true;
    }
    let n = t.len();
    match slash {
        Some(p) => {
            let cat = crate::text::chars_range(t, 0, p);
            let base = crate::text::chars_range(t, p + 1, n);
            if starts_with_chars(k, cat.as_slice()) && ends_with_chars(k, base.as_slice()) {
                let lo = cat.len() + 1;
                let hi = k.len() - base.len();
                lo < hi && k[hi - 1] == '_'
            } else {
                false
            }
        },
        None => false,
    }
}

/// Finds `target_key`, or the first of its variants in store order, on the 960 x 540
/// RGBA screen: returns the key found, the top-left corner, the template size and
/// the score.
pub fn find_template_with_variants(
    screen_rgba: &[u8],
    templates: &TemplateStore,
    target_key: &str,
    threshold: u32,
    max_scan_w: Option<usize>,
) -> (r: Option<(String, usize, usize, u32, u32, u32)>)
    requires
        forall|i: int| 0 <= i < templates@.len() ==> variant_key_ok(target_key@, #[trigger] templates@[i].0),
        forall|i: int|
            0 <= i < templates@.len() && is_variant(target_key@, #[trigger] templates@[i].0) ==> screen_scan_ok(
                screen_rgba@.len() as int,
                templates@[i].1,
                threshold as int,
                max_scan_w,
            ),
    ensures
        variant_view(r) == first_variant_found(templates@, target_key@, screen_rgba@, threshold as int, max_scan_w, 0),
{
    let t = chars_of(target_key);
    let slash = find_slash(t.as_slice());
    proof {
        lemma_first_slash_bounds(t@);
    }
    let mut i: usize = 0;
    while i < templates.entries.len()
        invariant
            i <= templates@.len(),
            templates@.len() == templates.entries@.len(),
            t@ == target_key@,
            match slash {
                Some(p) => p as int == first_slash(t@),
                None => first_slash(t@) == -1,
            },
            -1 <= first_slash(t@) < t@.len(),
            first_variant_found(templates@, target_key@, screen_rgba@, threshold as int, max_scan_w, 0)
                == first_variant_found(templates@, target_key@, screen_rgba@, threshold as int, max_scan_w, i as int),
            forall|j: int|
                0 <= j < templates@.len() && is_variant(target_key@, #[trigger] templates@[j].0) ==> screen_scan_ok(
                    screen_rgba@.len() as int,
                    templates@[j].1,
                    threshold as int,
                    max_scan_w,
                ),
            forall|j: int| 0 <= j < templates@.len() ==> variant_key_ok(target_key@, #[trigger] templates@[j].0),
        decreases templates@.len() - i,
    {
        let entry = &templates.entries[i];
        let k = chars_of(entry.0.as_str());
        assert(templates@[i as int].0 == k@);
        let variant = variant_check(t.as_slice(), slash, k.as_slice());
        assert(variant == is_variant(target_key@, templates@[i as int].0));
        if variant {
            let tv = &entry.1;
            let (w, h) = tv.dimensions;
            let data: &Vec<u8> = &*tv.data;
            let found = FastRecognizer::find_template_step(
                screen_rgba,
                BASE_W as usize,
                BASE_H as usize,
                4,
                data.as_slice(),
                w as usize,
                h as usize,
                threshold,
                max_scan_w,
            );
            match found {
                Some((x, y, score)) => {
                    return Some((entry.0.clone(), x, y, w, h, score));
                },
                None => {},
            }
        }
        i = i + 1;
    }
    None
}

impl TemplateStore {
    /// Finds exactly the template stored under `key` (no variants) on the 960 x 540
    /// RGBA screen: returns the top-left corner and the score.
    pub fn find_template_exact(
        &self,
        screen_rgba: &[u8],
        key: &str,
        threshold: u32,
        max_scan_w: Option<usize>,
    ) -> (r: Option<(usize, usize, u32)>)
        requires
            lookup(self@, key@) matches Some(tv) ==> screen_scan_ok(screen_rgba@.len() as int, tv, threshold as int, max_scan_w),
        ensures
            found_view(r) == match lookup(self@, key@) {
                Some(tv) => spec_find_on_screen(screen_rgba@, tv, threshold as int, max_scan_w),
                None => None,
            },
    {
        match self.get(key) {
            Some(tv) => {
                let (w, h) = tv.dimensions;
                let data: &Vec<u8> = &*tv.data;
                FastRecognizer::find_template_step(
                    screen_rgba,
                    BASE_W as usize,
                    BASE_H as usize,
                    4,
                    data.as_slice(),
                    w as usize,
                    h as usize,
                    threshold,
                    max_scan_w,
                )
            },
            None => None,
        }
    }
}

} // verus!

verus! {

/// Byte `i` lies in pixel `(col, row)` of the 960-pixel-wide RGBA screen with
/// `x <= col < x + w` and `y <= row < y + h`, and the pixel's four bytes lie in a
/// buffer of `len` bytes.
pub open spec fn in_blanked_area(i: int, x: int, y: int, w: int, h: int, len: int) -> bool {
    let p = i / 4;
    let row = p / 960;
    let col = p % 960;
    &&& 0 <= i
    &&& y <= row < y + h
    &&& x <= col < x + w
    &&& p * 4 + 3 < len
}

/// The screen with the area `x..x + w`, `y..y + h` set to zero.
pub open spec fn blank_area(s: Seq<u8>, x: int, y: int, w: int, h: int) -> Seq<u8> {
    Seq::new(s.len(), |i: int| if in_blanked_area(i, x, y, w, h, s.len() as int) { 0u8 } else { s[i] })
}

/// The number of times the variant search finds `key` when each find is blanked out
/// before the next search, if that ends within `fuel` searches.
pub open spec fn occurrences(
    e: Seq<(Seq<char>, TemplateView)>,
    key: Seq<char>,
    screen: Seq<u8>,
    threshold: int,
    fuel: nat,
) -> Option<nat>
    decreases fuel,
{
    if fuel == 0 {
        None
    } else {
        match first_variant_found(e, key, screen, threshold, None, 0) {
            None => Some(0),
            Some(f) => match occurrences(e, key, blank_area(screen, f.1, f.2, f.3, f.4), threshold, (fuel - 1) as nat) {
                Some(n) => Some(n + 1),
                None => None,
            },
        }
    }
}

/// The search-and-blank repetition ends.
pub open spec fn counting_ends(e: Seq<(Seq<char>, TemplateView)>, key: Seq<char>, screen: Seq<u8>, threshold: int) -> bool {
    exists|fuel: nat| #[trigger] occurrences(e, key, screen, threshold, fuel) is Some
}

/// The number of occurrences counted, where the repetition ends.
pub open spec fn occurrence_count(e: Seq<(Seq<char>, TemplateView)>, key: Seq<char>, screen: Seq<u8>, threshold: int) -> nat {
    occurrences(e, key, screen, threshold, choose|fuel: nat| #[trigger] occurrences(e, key, screen, threshold, fuel) is Some).unwrap()
}

/// More searches give the same count.
pub proof fn lemma_occurrences_fuel(
    e: Seq<(Seq<char>, TemplateView)>,
    key: Seq<char>,
    screen: Seq<u8>,
    threshold: int,
    f1: nat,
    f2: nat,
)
    requires
        occurrences(e, key, screen, threshold, f1) is Some,
        f1 <= f2,
    ensures
        occurrences(e, key, screen, threshold, f2) == occurrences(e, key, screen, threshold, f1),
    decreases f1,
{
    match first_variant_found(e, key, screen, threshold, None, 0) {
        None => {},
        Some(f) => {
            lemma_occurrences_fuel(e, key, blank_area(screen, f.1, f.2, f.3, f.4), threshold, (f1 - 1) as nat, (f2 - 1) as nat);
        },
    }
}

/// Any fuel that ends the repetition gives `occurrence_count`.
pub proof fn lemma_occurrence_count(
    e: Seq<(Seq<char>, TemplateView)>,
    key: Seq<char>,
    screen: Seq<u8>,
    threshold: int,
    f: nat,
)
    requires
        occurrences(e, key, screen, threshold, f) is Some,
    ensures
        occurrences(e, key, screen, threshold, f) == Some(occurrence_count(e, key, screen, threshold)),
{
    let g = choose|fuel: nat| #[trigger] occurrences(e, key, screen, threshold, fuel) is Some;
    assert(occurrences(e, key, screen, threshold, g) is Some);
    if f <= g {
        lemma_occurrences_fuel(e, key, screen, threshold, f, g);
    } else {
        lemma_occurrences_fuel(e, key, screen, threshold, g, f);
    }
}

/// Counting finds each occurrence once and blanks only what it found. Where the
/// search finds nothing the count is zero. Where it first finds a `w` x `h` window
/// at `(x, y)`, the count is one more than the count on the screen in which exactly
/// the pixels in columns `x..x + w` and rows `y..y + h` (those whose four bytes lie
/// in the buffer) are set to zero and every other byte is kept.
pub proof fn lemma_count_blanks_only_the_find(
    e: Seq<(Seq<char>, TemplateView)>,
    key: Seq<char>,
    screen: Seq<u8>,
    threshold: int,
    after: Seq<u8>,
)
    requires
        counting_ends(e, key, screen, threshold),
    ensures
        first_variant_found(e, key, screen, threshold, None, 0) is None ==> occurrence_count(e, key, screen, threshold)
            == 0,
        first_variant_found(e, key, screen, threshold, None, 0) matches Some(f) ==> (after.len() == screen.len() && (
        forall|i: int|
            0 <= i < screen.len() ==> #[trigger] after[i] == if f.2 <= (i / 4) / 960 < f.2 + f.4 && f.1 <= (i / 4)
                % 960 < f.1 + f.3 && (i / 4) * 4 + 3 < screen.len() {
                0u8
            } else {
                screen[i]
            })) ==> {
            &&& counting_ends(e, key, after, threshold)
            &&& occurrence_count(e, key, screen, threshold) == occurrence_count(e, key, after, threshold) + 1
        },
{
    let fuel = choose|fuel: nat| #[trigger] occurrences(e, key, screen, threshold, fuel) is Some;
    assert(occurrences(e, key, screen, threshold, fuel) is Some);
    lemma_occurrence_count(e, key, screen, threshold, fuel);
    match first_variant_found(e, key, screen, threshold, None, 0) {
        None => {},
        Some(f) => {
            if after.len() == screen.len() && (forall|i: int|
                0 <= i < screen.len() ==> #[trigger] after[i] == if f.2 <= (i / 4) / 960 < f.2 + f.4 && f.1 <= (i
                    / 4) % 960 < f.1 + f.3 && (i / 4) * 4 + 3 < screen.len() {
                    0u8
                } else {
                    screen[i]
                }) {
                let b = blank_area(screen, f.1, f.2, f.3, f.4);
                assert(after =~= b);
                let g = (fuel - 1) as nat;
                assert(occurrences(e, key, after, threshold, g) is Some);
                lemma_occurrence_count(e, key, after, threshold, g);
            }
        },
    }
}

/// Sets the area `x..x + w`, `y..y + h` of the 960-pixel-wide RGBA screen to zero.
fn blank_out(screen: &mut Vec<u8>, x: usize, y: usize, w: usize, h: usize)
    requires
        x + w <= 960,
        y + h <= 540,
    ensures
        final(screen)@ == blank_area(old(screen)@, x as int, y as int, w as int, h as int),
{
    let ghost orig = screen@;
    let len = screen.len();
    let mut row = y;
    while row < y + h
        invariant
            x + w <= 960,
            y + h <= 540,
            y <= row <= y + h,
            len == screen@.len(),
            orig.len() == len,
            forall|i: int|
                0 <= i < len ==> #[trigger] screen@[i] == if in_blanked_area(i, x as int, y as int, w as int, row - y, len as int) {
                    0u8
                } else {
                    orig[i]
                },
        decreases y + h - row,
    {
        let mut col = x;
        while col < x + w
            invariant
                x + w <= 960,
                y + h <= 540,
                y <= row < y + h,
                x <= col <= x + w,
                len == screen@.len(),
                orig.len() == len,
                forall|i: int|
                    0 <= i < len ==> #[trigger] screen@[i] == if in_blanked_area(i, x as int, y as int, w as int, row - y, len as int)
                        || (in_blanked_area(i, x as int, row as int, col - x, 1, len as int)) {
                        0u8
                    } else {
                        orig[i]
                    },
            decreases x + w - col,
        {
            let p = row * 960 + col;
            let idx = p * 4;
            proof {
                vstd::arithmetic::div_mod::lemma_fundamental_div_mod_converse(p as int, 960, row as int, col as int);
            }
            if idx + 3 < len {
                screen.set(idx, 0);
                screen.set(idx + 1, 0);
                screen.set(idx + 2, 0);
                screen.set(idx + 3, 0);
            }
            proof {
                assert forall|i: int| 0 <= i < len implies #[trigger] screen@[i] == if in_blanked_area(i, x as int, y as int, w as int, row - y, len as int)
                    || (in_blanked_area(i, x as int, row as int, col + 1 - x, 1, len as int)) {
                    0u8
                } else {
                    orig[i]
                } by {
                    let q = i / 4;
                    vstd::arithmetic::div_mod::lemma_fundamental_div_mod(i, 4);
                    vstd::arithmetic::div_mod::lemma_fundamental_div_mod(q, 960);
                    if idx <= i < idx + 4 {
                        vstd::arithmetic::div_mod::lemma_fundamental_div_mod_converse(i, 4, p as int, i - idx);
                    } else if q == p {
                        vstd::arithmetic::div_mod::lemma_fundamental_div_mod_converse(i, 4, p as int, i - idx);
                    }
                }
            }
            col = col + 1;
        }
        proof {
            assert forall|i: int| 0 <= i < len implies #[trigger] screen@[i] == if in_blanked_area(i, x as int, y as int, w as int, row + 1 - y, len as int) {
                0u8
            } else {
                orig[i]
            } by {}
        }
        row = row + 1;
    }
    assert(screen@ =~= blank_area(orig, x as int, y as int, w as int, h as int));
}

} // verus!

verus! {

/// A find lies on the screen with the whole template.
pub proof fn lemma_variant_found_on_screen(
    e: Seq<(Seq<char>, TemplateView)>,
    t: Seq<char>,
    screen: Seq<u8>,
    threshold: int,
    max_scan_w: Option<usize>,
    i: int,
)
    ensures
        first_variant_found(e, t, screen, threshold, max_scan_w, i) matches Some(f) ==> {
            &&& 0 <= f.1 && f.1 + f.3 < BASE_W
            &&& 0 <= f.2 && f.2 + f.4 < BASE_H
        },
    decreases e.len() - i,
{
    if 0 <= i < e.len() {
        let tv = e[i].1;
        let limit = scan_limit(BASE_W as int, max_scan_w);
        crate::matching::lemma_scan_result_in_scan(
            crate::recognize::template_scan(screen, BASE_W as int, BASE_H as int, 4, tv.data, tv.width as int,
                tv.height as int, threshold, limit),
        );
        lemma_variant_found_on_screen(e, t, screen, threshold, max_scan_w, i + 1);
    }
}

/// Counts how often `key` (or its variants) is found on the screen when each find is
/// blanked out before the next search.
pub fn count_template_occurrences(
    templates: &TemplateStore,
    key: &str,
    screen_rgba: &[u8],
    threshold: u32,
) -> (n: usize)
    requires
        forall|i: int| 0 <= i < templates@.len() ==> variant_key_ok(key@, #[trigger] templates@[i].0),
        forall|i: int|
            0 <= i < templates@.len() && is_variant(key@, #[trigger] templates@[i].0) ==> screen_scan_ok(
                screen_rgba@.len() as int,
                templates@[i].1,
                threshold as int,
                None,
            ),
        counting_ends(templates@, key@, screen_rgba@, threshold as int),
        occurrence_count(templates@, key@, screen_rgba@, threshold as int) <= usize::MAX,
    ensures
        n == occurrence_count(templates@, key@, screen_rgba@, threshold as int),
{
    let ghost e = templates@;
    let ghost total = occurrence_count(e, key@, screen_rgba@, threshold as int);
    let ghost mut fuel: nat = choose|fuel: nat| #[trigger] occurrences(e, key@, screen_rgba@, threshold as int, fuel) is Some;
    proof {
        lemma_occurrence_count(e, key@, screen_rgba@, threshold as int, fuel);
    }
    let mut temp = vstd::slice::slice_to_vec(screen_rgba);
    let mut count: usize = 0;
    loop
        invariant
            e == templates@,
            temp@.len() == screen_rgba@.len(),
            total <= usize::MAX,
            total == occurrence_count(e, key@, screen_rgba@, threshold as int),
            occurrences(e, key@, temp@, threshold as int, fuel) matches Some(m) && count + m == total,
            forall|i: int| 0 <= i < e.len() ==> variant_key_ok(key@, #[trigger] e[i].0),
            forall|i: int|
                0 <= i < e.len() && is_variant(key@, #[trigger] e[i].0) ==> screen_scan_ok(
                    screen_rgba@.len() as int,
                    e[i].1,
                    threshold as int,
                    None,
                ),
        ensures
            count == total,
        decreases fuel,
    {
        let found = find_template_with_variants(temp.as_slice(), templates, key, threshold, None);
        match found {
            Some((_k, x, y, w, h, _score)) => {
                proof {
                    lemma_variant_found_on_screen(e, key@, temp@, threshold as int, None, 0);
                }
                let ghost before = temp@;
                let ghost f = first_variant_found(e, key@, before, threshold as int, None, 0).unwrap();
                blank_out(&mut temp, x, y, w as usize, h as usize);
                proof {
                    assert(temp@ == blank_area(before, f.1, f.2, f.3, f.4));
                    assert(fuel > 0);
                }
                count = count + 1;
                proof {
                    fuel = (fuel - 1) as nat;
                }
            },
            None => {
                break;
            },
        }
    }
    count
}

} // verus!

verus! {

/// The variant search for `key` on a screen of `screen_len` bytes can run: every key
/// that shares its ends with `key` is well formed, and every variant of `key` can be
/// scanned.
pub open spec fn searchable(
    e: Seq<(Seq<char>, TemplateView)>,
    key: Seq<char>,
    screen_len: int,
    threshold: int,
    max_scan_w: Option<usize>,
) -> bool {
    &&& forall|i: int| 0 <= i < e.len() ==> variant_key_ok(key, #[trigger] e[i].0)
    &&& forall|i: int|
        0 <= i < e.len() && is_variant(key, #[trigger] e[i].0) ==> screen_scan_ok(screen_len, e[i].1, threshold, max_scan_w)
}

/// Whether `k` is a well-formed key for a variant search of `t`.
fn variant_key_check(t: &[char], slash: Option<usize>, k: &[char]) -> (r: bool)
    requires
        match slash {
            Some(p) => p as int == first_slash(t@),
            None => first_slash(t@) == -1,
        },
        -1 <= first_slash(t@) < t@.len(),
    ensures
        r == variant_key_ok(t@, k@),
{
    match slash {
        Some(p) => {
            let n = t.len();
            let cat = crate::text::chars_range(t, 0, p);
            let base = crate::text::chars_range(t, p + 1, n);
            let shares = !chars_eq(k, t) && starts_with_chars(k, cat.as_slice()) && ends_with_chars(
                k,
                base.as_slice(),
            );
            if !shares {
                true
            } else {
                let room = k.len() - base.len();
                if cat.len() + 1 <= room {
                    (k[cat.len()] as u32) < 128
                } else {
                    false
                }
            }
        },
        None => true,
    }
}

/// Whether template `t` can be scanned on a screen of `screen_len` bytes.
fn scan_ok_check(screen_len: usize, t: &CachedTemplate, threshold: u32, max_scan_w: Option<usize>) -> (r: bool)
    ensures
        r == screen_scan_ok(screen_len as int, t.tview(), threshold as int, max_scan_w),
{
    let (w, h) = t.dimensions;
    let data: &Vec<u8> = &*t.data;
    let limit: u64 = match max_scan_w {
        Some(v) => if (v as u64) <= (BASE_W as u64) { v as u64 } else { BASE_W as u64 },
        None => BASE_W as u64,
    };
    let visits = (w as u64) <= (BASE_W as u64) && (h as u64) <= (BASE_H as u64) && (w as u64) <= limit
        && (BASE_H as u64) - (h as u64) > 0 && limit - (w as u64) > 0;
    if !visits {
        return true;
    }
    assert((w as u128) * (h as u128) <= 960 * 540) by (nonlinear_arith)
        requires
            w <= 960,
            h <= 540,
    ;
    let area: u128 = (w as u128) * (h as u128);
    (BASE_W as u128) * (BASE_H as u128) * 4 <= (screen_len as u128) && area * 3 <= (data.len() as u128) && w >= 2
        && h >= 2 && 2 * (threshold as u128) <= (u32::MAX as u128) && area * 255 <= (u64::MAX as u128)
}

impl TemplateStore {
    /// Whether the variant search for `key` on a screen of `screen_len` bytes can run.
    pub fn is_searchable(&self, key: &str, screen_len: usize, threshold: u32, max_scan_w: Option<usize>) -> (r: bool)
        ensures
            r == searchable(self@, key@, screen_len as int, threshold as int, max_scan_w),
    {
        let t = chars_of(key);
        let slash = find_slash(t.as_slice());
        proof {
            lemma_first_slash_bounds(t@);
        }
        let mut i: usize = 0;
        while i < self.entries.len()
            invariant
                i <= self@.len(),
                self@.len() == self.entries@.len(),
                t@ == key@,
                match slash {
                    Some(p) => p as int == first_slash(t@),
                    None => first_slash(t@) == -1,
                },
                -1 <= first_slash(t@) < t@.len(),
                forall|j: int| 0 <= j < i ==> variant_key_ok(key@, #[trigger] self@[j].0),
                forall|j: int|
                    0 <= j < i && is_variant(key@, #[trigger] self@[j].0) ==> screen_scan_ok(
                        screen_len as int,
                        self@[j].1,
                        threshold as int,
                        max_scan_w,
                    ),
            decreases self@.len() - i,
        {
            let entry = &self.entries[i];
            let k = chars_of(entry.0.as_str());
            assert(self@[i as int].0 == k@);
            if !variant_key_check(t.as_slice(), slash, k.as_slice()) {
                return false;
            }
            if variant_check(t.as_slice(), slash, k.as_slice()) {
                if !scan_ok_check(screen_len, &entry.1, threshold, max_scan_w) {
                    return false;
                }
            }
            i = i + 1;
        }
        true
    }
}

} // verus!

verus! {

impl TemplateStore {
    /// Whether the template stored under exactly `key`, if any, can be scanned on a
    /// screen of `screen_len` bytes.
    pub fn is_scannable(&self, key: &str, screen_len: usize, threshold: u32, max_scan_w: Option<usize>) -> (r: bool)
        ensures
            r == (lookup(self@, key@) matches Some(tv) ==> screen_scan_ok(screen_len as int, tv, threshold as int, max_scan_w)),
    {
        match self.get(key) {
            Some(t) => scan_ok_check(screen_len, t, threshold, max_scan_w),
            None => true,
        }
    }
}

} // verus!

verus! {

/// The variant search reports the first entry, in store order, that is the target or
/// one of its variants and is found on the screen — its key, its find and its size;
/// it reports nothing only where no such entry is found.
pub proof fn lemma_first_variant_found(
    e: Seq<(Seq<char>, TemplateView)>,
    t: Seq<char>,
    screen: Seq<u8>,
    threshold: int,
    max_scan_w: Option<usize>,
    i: int,
)
    requires
        0 <= i,
    ensures
        match first_variant_found(e, t, screen, threshold, max_scan_w, i) {
            Some(f) => exists|j: int|
                #![trigger e[j]]
                {
                    &&& i <= j < e.len()
                    &&& e[j].0 == f.0 && is_variant(t, e[j].0)
                    &&& spec_find_on_screen(screen, e[j].1, threshold, max_scan_w) == Some((f.1, f.2, f.5))
                    &&& f.3 == e[j].1.width && f.4 == e[j].1.height
                    &&& forall|k: int|
                        i <= k < j ==> !(is_variant(t, #[trigger] e[k].0) && spec_find_on_screen(screen, e[k].1, threshold, max_scan_w) is Some)
                },
            None => forall|k: int|
                i <= k < e.len() ==> !(is_variant(t, #[trigger] e[k].0) && spec_find_on_screen(screen, e[k].1, threshold, max_scan_w) is Some),
        },
    decreases e.len() - i,
{
    if i < e.len() {
        lemma_first_variant_found(e, t, screen, threshold, max_scan_w, i + 1);
    }
}

/// Every key is a variant of itself.
pub proof fn lemma_key_is_own_variant(t: Seq<char>)
    ensures
        is_variant(t, t),
{
}

} // verus!

verus! {

/// The width, height and 8-bit RGB pixels of the PNG image encoded in `bytes`, where
/// the bytes decode.
pub uninterp spec fn decoded_png_rgb(bytes: Seq<u8>) -> Option<(u32, u32, Seq<u8>)>;

/// The view of a decoded image.
pub open spec fn decoded_view(r: Option<(u32, u32, Vec<u8>)>) -> Option<(u32, u32, Seq<u8>)> {
    match r {
        Some((w, h, px)) => Some((w, h, px@)),
        None => None,
    }
}

/// Decodes PNG bytes with `image::load_from_memory_with_format` and converts the image
/// to 8-bit RGB with `DynamicImage::to_rgb8`. Claimed: the result is `decoded_png_rgb`
/// of the bytes (`None` where decoding fails), and its pixel data holds at least three
/// bytes for each of the `width * height` pixels (an `ImageBuffer` is only built over a
/// buffer that large); nothing more is claimed of its contents.
#[verifier::external_body]
fn decode_png_rgb(bytes: &[u8]) -> (r: Option<(u32, u32, Vec<u8>)>)
    ensures
        decoded_view(r) == decoded_png_rgb(bytes@),
        r matches Some((w, h, px)) ==> px@.len() >= w * h * 3,
{
    match image::load_from_memory_with_format(bytes, image::ImageFormat::Png) {
        Ok(img) => {
            let rgb = img.to_rgb8();
            Some((rgb.width(), rgb.height(), rgb.into_raw()))
        },
        Err(_) => None,
    }
}

/// The template held in a PNG file's bytes: its size and RGB pixels, where the bytes
/// decode.
pub fn template_from_png(bytes: &[u8]) -> (r: Option<CachedTemplate>)
    ensures
        match r {
            Some(t) => {
                &&& decoded_png_rgb(bytes@) == Some((t.dimensions.0, t.dimensions.1, t.data@))
                &&& t.data@.len() >= t.dimensions.0 * t.dimensions.1 * 3
            },
            None => decoded_png_rgb(bytes@) is None,
        },
{
    match decode_png_rgb(bytes) {
        Some((w, h, px)) => Some(CachedTemplate { dimensions: (w, h), data: Arc::new(px) }),
        None => None,
    }
}

} // verus!
