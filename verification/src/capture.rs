//! Framebuffer captures into native Images. An Image keeps its logical
//! name while captures replace its pixels: every capture gets a physical
//! generation of its own, `<capture-generation:{n}:{name}>`, and the name is
//! rebound to it, so that draws recorded before the capture keep reading the
//! pixels they saw. A capture never changes an Image's size or surface
//! format, and a temporary capture rebinds nothing.
//!
//! The surface format is carried, never read: it is the type parameter `F`.
use vstd::prelude::*;
use crate::text::{byte_len, chars_of, push_chars, string_from_chars};

verus! {

/// A texture as the GPU frame sees it: the physical source it is uploaded
/// from, its size and its surface format.
pub struct ResolvedTexture<F> {
    pub source: String,
    pub width: u32,
    pub height: u32,
    pub surface_format: F,
}

/// A texture by its source's characters.
pub type TextureView<F> = (Seq<char>, u32, u32, F);

pub open spec fn texture_view<F>(texture: ResolvedTexture<F>) -> TextureView<F> {
    (texture.source@, texture.width, texture.height, texture.surface_format)
}

/// Why a capture target cannot be prepared.
#[derive(Clone, Copy, Debug, PartialEq, Eq, Structural)]
pub enum CaptureError {
    /// The Image names a file texture that could not be resolved.
    Unresolved,
    /// The Image's size, which differs from the framebuffer's.
    WrongSize { width: u32, height: u32 },
}

/// The decimal digits of `n`.
pub open spec fn decimal(n: nat) -> Seq<char>
    decreases n,
{
    if n < 10 {
        seq![digit_char(n)]
    } else {
        decimal(n / 10).push(digit_char(n % 10))
    }
}

pub open spec fn digit_char(d: nat) -> char {
    if d == 0 {
        '0'
    } else if d == 1 {
        '1'
    } else if d == 2 {
        '2'
    } else if d == 3 {
        '3'
    } else if d == 4 {
        '4'
    } else if d == 5 {
        '5'
    } else if d == 6 {
        '6'
    } else if d == 7 {
        '7'
    } else if d == 8 {
        '8'
    } else {
        '9'
    }
}

/// The number that decimal digits spell.
pub open spec fn decimal_value(digits: Seq<char>) -> int
    decreases digits.len(),
{
    if digits.len() == 0 {
        0
    } else {
        decimal_value(digits.drop_last()) * 10 + (digits.last() as int - 48)
    }
}

/// `<capture-generation:`
pub open spec fn generation_open() -> Seq<char> {
    seq![
        '<', 'c', 'a', 'p', 't', 'u', 'r', 'e', '-', 'g', 'e', 'n', 'e', 'r', 'a', 't', 'i', 'o',
        'n', ':',
    ]
}

/// `<capture:`, the start of the name of an Image that a capture creates.
pub open spec fn capture_open() -> Seq<char> {
    seq!['<', 'c', 'a', 'p', 't', 'u', 'r', 'e', ':']
}

/// The physical source of capture generation `generation` of `logical`.
pub open spec fn generation_source(generation: nat, logical: Seq<char>) -> Seq<char> {
    generation_open() + decimal(generation) + seq![':'] + logical + seq!['>']
}

/// Whether a logical name is that of an Image a capture creates.
pub open spec fn is_capture_name(logical: Seq<char>) -> bool {
    logical.len() >= 9 && logical.take(9) == capture_open()
}

/// `source` is a generation of `logical` among the first `generations`.
pub open spec fn handed_out(source: Seq<char>, logical: Seq<char>, generations: nat) -> bool {
    exists|n: nat| 1 <= n <= generations && source == #[trigger] generation_source(n, logical)
}

proof fn lemma_handed_out_later(source: Seq<char>, logical: Seq<char>, earlier: nat, later: nat)
    requires
        handed_out(source, logical, earlier),
        earlier <= later,
    ensures
        handed_out(source, logical, later),
{
    let n = choose|n: nat| 1 <= n <= earlier && source == #[trigger] generation_source(n, logical);
    assert(1 <= n <= later && source == generation_source(n, logical));
}

/// The value of a key in entries with distinct keys.
pub open spec fn bound_to<V>(entries: Seq<(Seq<char>, V)>, key: Seq<char>) -> Option<V> {
    if exists|i: int| 0 <= i < entries.len() && #[trigger] entries[i].0 == key {
        Some(entries[choose|i: int| 0 <= i < entries.len() && #[trigger] entries[i].0 == key].1)
    } else {
        None
    }
}

pub open spec fn distinct_keys<V>(entries: Seq<(Seq<char>, V)>) -> bool {
    forall|i: int, j: int|
        0 <= i < entries.len() && 0 <= j < entries.len() && i != j ==> #[trigger] entries[i].0
            != #[trigger] entries[j].0
}

/// With distinct keys, the entry that holds a key is its value.
proof fn lemma_bound_at<V>(entries: Seq<(Seq<char>, V)>, i: int)
    requires
        distinct_keys(entries),
        0 <= i < entries.len(),
    ensures
        bound_to(entries, entries[i].0) == Some(entries[i].1),
{
    let key = entries[i].0;
    assert(entries[i].0 == key);
    let j = choose|j: int| 0 <= j < entries.len() && #[trigger] entries[j].0 == key;
    assert(entries[j].0 == key);
}

proof fn lemma_digit_char(d: nat)
    requires
        d < 10,
    ensures
        digit_char(d) as int == 48 + d,
{
}

proof fn lemma_decimal(n: nat)
    ensures
        decimal(n).len() >= 1,
        decimal_value(decimal(n)) == n,
        forall|i: int| 0 <= i < decimal(n).len() ==> 48 <= (#[trigger] decimal(n)[i] as u32) <= 57,
    decreases n,
{
    if n < 10 {
        lemma_digit_char(n);
        assert(seq![digit_char(n)].drop_last() =~= Seq::<char>::empty());
        assert(decimal_value(decimal(n)) == decimal_value(Seq::<char>::empty()) * 10 + (digit_char(
            n,
        ) as int - 48));
    } else {
        lemma_decimal(n / 10);
        lemma_digit_char(n % 10);
        let d = decimal(n);
        assert(d.drop_last() =~= decimal(n / 10));
        assert(n == (n / 10) * 10 + n % 10) by {
            vstd::arithmetic::div_mod::lemma_fundamental_div_mod(n as int, 10);
        }
        assert forall|i: int| 0 <= i < d.len() implies 48 <= (#[trigger] d[i] as u32) <= 57 by {
            if i < d.len() - 1 {
                assert(d[i] == decimal(n / 10)[i]);
            }
        }
    }
}

/// Different generations have different sources, whatever their names:
/// a capture never overwrites the pixels of an earlier one.
pub proof fn law_generation_sources_differ(
    first: nat,
    second: nat,
    first_name: Seq<char>,
    second_name: Seq<char>,
)
    requires
        first != second,
    ensures
        generation_source(first, first_name) != generation_source(second, second_name),
{
    lemma_decimal(first);
    lemma_decimal(second);
    let (a, b) = (decimal(first), decimal(second));
    let (s, t) = (generation_source(first, first_name), generation_source(second, second_name));
    if s == t {
        if a.len() < b.len() {
            assert(s[20 + a.len() as int] == ':');
            assert(t[20 + a.len() as int] == b[a.len() as int]);
        } else if b.len() < a.len() {
            assert(t[20 + b.len() as int] == ':');
            assert(s[20 + b.len() as int] == a[b.len() as int]);
        } else {
            assert forall|i: int| 0 <= i < a.len() implies a[i] == b[i] by {
                assert(s[20 + i] == a[i]);
                assert(t[20 + i] == b[i]);
            }
            assert(a =~= b);
        }
    }
}

fn push_decimal(out: &mut Vec<char>, value: u64)
    ensures
        final(out)@ == old(out)@ + decimal(value as nat),
    decreases value,
{
    if value >= 10 {
        push_decimal(out, value / 10);
    }
    let digits = ['0', '1', '2', '3', '4', '5', '6', '7', '8', '9'];
    out.push(digits[(value % 10) as usize]);
    proof {
        if value >= 10 {
            assert(final(out)@ =~= old(out)@ + decimal(value as nat));
        } else {
            assert(final(out)@ =~= old(out)@ + decimal(value as nat));
        }
    }
}

/// The capture targets of native Images, by logical name, and the last
/// generation handed out.
pub struct CaptureCatalog<F> {
    bindings: Vec<(String, ResolvedTexture<F>)>,
    next_generation: u64,
}

impl<F: Copy> CaptureCatalog<F> {
    pub closed spec fn entries(&self) -> Seq<(Seq<char>, TextureView<F>)> {
        self.bindings@.map_values(|e: (String, ResolvedTexture<F>)| (e.0@, texture_view(e.1)))
    }

    /// Names are bound once, each to a generation of its own that has been
    /// handed out.
    pub closed spec fn wf(&self) -> bool {
        &&& distinct_keys(self.entries())
        &&& forall|i: int|
            0 <= i < self.entries().len() ==> handed_out(
                (#[trigger] self.entries()[i]).1.0,
                self.entries()[i].0,
                self.generation(),
            )
    }

    /// The texture each bound logical name reads.
    pub closed spec fn bindings(&self) -> Map<Seq<char>, TextureView<F>> {
        Map::new(
            |k: Seq<char>| bound_to(self.entries(), k) is Some,
            |k: Seq<char>| bound_to(self.entries(), k).unwrap(),
        )
    }

    /// The last generation handed out.
    pub closed spec fn generation(&self) -> nat {
        self.next_generation as nat
    }

    /// An empty catalog.
    pub fn new() -> (catalog: Self)
        ensures
            catalog.wf(),
            catalog.bindings() == Map::<Seq<char>, TextureView<F>>::empty(),
            catalog.generation() == 0,
    {
        let catalog = CaptureCatalog { bindings: Vec::new(), next_generation: 0 };
        assert(catalog.bindings() =~= Map::<Seq<char>, TextureView<F>>::empty());
        catalog
    }

    /// The last generation handed out.
    pub fn last_generation(&self) -> (generation: u64)
        ensures
            generation == self.generation(),
    {
        self.next_generation
    }

    /// How many logical names are bound.
    pub fn len(&self) -> (count: usize)
        requires
            self.wf(),
        ensures
            count == self.bindings().dom().len(),
    {
        proof {
            self.lemma_domain_size();
        }
        self.bindings.len()
    }

    proof fn lemma_domain_size(&self)
        requires
            self.wf(),
        ensures
            self.bindings().dom().len() == self.entries().len(),
            self.bindings().dom().finite(),
    {
        let entries = self.entries();
        let keys = entries.map_values(|e: (Seq<char>, TextureView<F>)| e.0);
        assert(self.bindings().dom() =~= keys.to_set()) by {
            assert forall|k: Seq<char>| self.bindings().dom().contains(k) implies keys.to_set().contains(
                k,
            ) by {
                let i = choose|i: int| 0 <= i < entries.len() && #[trigger] entries[i].0 == k;
                assert(keys[i] == k);
            }
            assert forall|k: Seq<char>| keys.to_set().contains(k) implies self.bindings().dom().contains(
                k,
            ) by {
                let i = choose|i: int| 0 <= i < keys.len() && keys[i] == k;
                assert(entries[i].0 == k);
            }
        }
        assert(keys.no_duplicates()) by {
            assert forall|i: int, j: int|
                0 <= i < keys.len() && 0 <= j < keys.len() && i != j implies keys[i] != keys[j] by {
                assert(entries[i].0 != entries[j].0);
            }
        }
        keys.unique_seq_to_set();
    }

    /// Where a logical name is bound, if it is.
    fn find(&self, logical: &str) -> (index: Option<usize>)
        requires
            self.wf(),
        ensures
            match index {
                Some(i) => i < self.entries().len() && self.entries()[i as int].0 == logical@,
                None => forall|i: int|
                    0 <= i < self.entries().len() ==> #[trigger] self.entries()[i].0 != logical@,
            },
    {
        let mut i: usize = 0;
        while i < self.bindings.len()
            invariant
                0 <= i <= self.bindings@.len(),
                forall|j: int| 0 <= j < i ==> #[trigger] self.entries()[j].0 != logical@,
            decreases self.bindings@.len() - i,
        {
            if crate::text::same_text(self.bindings[i].0.as_str(), logical) {
                return Some(i);
            }
            i = i + 1;
        }
        None
    }

    /// The texture a logical name is bound to.
    pub fn binding(&self, logical: &str) -> (texture: Option<&ResolvedTexture<F>>)
        requires
            self.wf(),
        ensures
            match texture {
                Some(t) => self.bindings().contains_key(logical@) && self.bindings()[logical@]
                    == texture_view(*t),
                None => !self.bindings().contains_key(logical@),
            },
    {
        match self.find(logical) {
            Some(i) => {
                proof {
                    lemma_bound_at(self.entries(), i as int);
                }
                Some(&self.bindings[i].1)
            },
            None => None,
        }
    }

    /// Prepares a framebuffer capture into the Image `logical`. Its target
    /// is the texture the name is bound to; else, for a name that a capture
    /// creates, a new texture of the framebuffer's size in `capture_format`;
    /// else the file texture `resolved`. A target of another size than the
    /// framebuffer is refused. The capture gets the next generation, with
    /// the target's size and format; unless it is `temporary`, the name is
    /// rebound to it. Returns the capture's texture and the source the name
    /// was bound to before.
    pub fn prepare_capture(
        &mut self,
        logical: &str,
        width: u32,
        height: u32,
        temporary: bool,
        capture_format: F,
        resolved: Option<ResolvedTexture<F>>,
    ) -> (result: Result<(ResolvedTexture<F>, Option<String>), CaptureError>)
        requires
            old(self).wf(),
            old(self).generation() < u64::MAX,
            byte_len(logical@) + 64 <= isize::MAX,
        ensures
            final(self).wf(),
            ({
                let bound = if old(self).bindings().contains_key(logical@) {
                    Some(old(self).bindings()[logical@])
                } else {
                    None::<TextureView<F>>
                };
                let target = match bound {
                    Some(t) => Some(t),
                    None => if is_capture_name(logical@) {
                        Some((logical@, width, height, capture_format))
                    } else {
                        match resolved {
                            Some(t) => Some(texture_view(t)),
                            None => None,
                        }
                    },
                };
                match target {
                    None => result == Err::<(ResolvedTexture<F>, Option<String>), CaptureError>(
                        CaptureError::Unresolved,
                    ) && *final(self) == *old(self),
                    Some(o) => if o.1 != width || o.2 != height {
                        result == Err::<(ResolvedTexture<F>, Option<String>), CaptureError>(
                            CaptureError::WrongSize { width: o.1, height: o.2 },
                        ) && *final(self) == *old(self)
                    } else {
                        let texture = (
                            generation_source(old(self).generation() + 1, logical@),
                            o.1,
                            o.2,
                            o.3,
                        );
                        &&& result matches Ok((t, previous)) && texture_view(t) == texture && match (
                            previous,
                            bound,
                        ) {
                            (Some(p), Some(b)) => p@ == b.0,
                            (None, None) => true,
                            _ => false,
                        }
                        &&& final(self).generation() == old(self).generation() + 1
                        &&& forall|k: Seq<char>| #[trigger] old(self).bindings().contains_key(k)
                            ==> old(self).bindings()[k].0 != texture.0
                        &&& final(self).bindings() == if temporary {
                            old(self).bindings()
                        } else {
                            old(self).bindings().insert(logical@, texture)
                        }
                    },
                }
            }),
    {
        let found = self.find(logical);
        proof {
            if let Some(i) = found {
                lemma_bound_at(self.entries(), i as int);
            }
        }
        let target = match found {
            Some(i) => copy_texture(&self.bindings[i].1),
            None => {
                if starts_with_capture_open(logical) {
                    ResolvedTexture {
                        source: string_from_chars(&chars_of(logical)),
                        width,
                        height,
                        surface_format: capture_format,
                    }
                } else {
                    match resolved {
                        Some(texture) => texture,
                        None => {
                            return Err(CaptureError::Unresolved);
                        },
                    }
                }
            },
        };
        if target.width != width || target.height != height {
            return Err(CaptureError::WrongSize { width: target.width, height: target.height });
        }
        let previous = match found {
            Some(i) => Some(self.bindings[i].1.source.clone()),
            None => None,
        };
        self.next_generation = self.next_generation + 1;
        let texture = ResolvedTexture {
            source: generation_source_text(self.next_generation, logical),
            width: target.width,
            height: target.height,
            surface_format: target.surface_format,
        };
        proof {
            old(self).law_bindings_read_their_own_generations();
            assert forall|k: Seq<char>| #[trigger] old(self).bindings().contains_key(k) implies old(
                self,
            ).bindings()[k].0 != texture.source@ by {
                let n = choose|n: nat|
                    1 <= n <= old(self).generation() && old(self).bindings()[k].0
                        == #[trigger] generation_source(n, k);
                law_generation_sources_differ(n, self.generation(), k, logical@);
            }
        }
        if temporary {
            proof {
                self.lemma_generation_advanced(*old(self));
            }
        } else {
            let entry = (string_from_chars(&chars_of(logical)), copy_texture(&texture));
            let ghost before = *old(self);
            match found {
                Some(i) => {
                    self.bindings.set(i, entry);
                    assert(self.entries() =~= before.entries().update(
                        i as int,
                        (logical@, texture_view(texture)),
                    ));
                    proof {
                        self.lemma_rebound(before, i as int, logical@, texture_view(texture));
                    }
                },
                None => {
                    self.bindings.push(entry);
                    assert(self.entries() =~= before.entries().push((logical@, texture_view(texture))));
                    proof {
                        self.lemma_bound_new(before, logical@, texture_view(texture));
                    }
                },
            }
        }
        Ok((texture, previous))
    }

    proof fn lemma_rebound(&self, before: Self, i: int, key: Seq<char>, value: TextureView<F>)
        requires
            before.wf(),
            before.generation() < self.generation(),
            value.0 == generation_source(self.generation(), key),
            0 <= i < before.entries().len(),
            before.entries()[i].0 == key,
            self.entries() == before.entries().update(i, (key, value)),
        ensures
            self.wf(),
            self.bindings() == before.bindings().insert(key, value),
    {
        let (old_e, new_e) = (before.entries(), self.entries());
        assert(distinct_keys(new_e)) by {
            assert forall|a: int, b: int|
                0 <= a < new_e.len() && 0 <= b < new_e.len() && a != b implies #[trigger] new_e[a].0
                != #[trigger] new_e[b].0 by {
                assert(old_e[a].0 != old_e[b].0);
            }
        }
        assert forall|j: int| 0 <= j < new_e.len() implies handed_out(
            (#[trigger] new_e[j]).1.0,
            new_e[j].0,
            self.generation(),
        ) by {
            if j == i {
                assert(value.0 == generation_source(self.generation(), key));
            } else {
                assert(new_e[j] == old_e[j]);
                lemma_handed_out_later(old_e[j].1.0, old_e[j].0, before.generation(), self.generation());
            }
        }
        assert forall|k: Seq<char>| #[trigger] bound_to(new_e, k) == (if k == key {
            Some(value)
        } else {
            bound_to(old_e, k)
        }) by {
            if k == key {
                lemma_bound_at(new_e, i);
            } else if exists|j: int| 0 <= j < old_e.len() && #[trigger] old_e[j].0 == k {
                let j = choose|j: int| 0 <= j < old_e.len() && #[trigger] old_e[j].0 == k;
                lemma_bound_at(old_e, j);
                assert(new_e[j] == old_e[j]);
                lemma_bound_at(new_e, j);
            } else {
                assert forall|j: int| 0 <= j < new_e.len() implies #[trigger] new_e[j].0 != k by {
                    if j != i {
                        assert(new_e[j] == old_e[j]);
                    }
                }
            }
        }
        assert(self.bindings() =~= before.bindings().insert(key, value));
    }

    proof fn lemma_bound_new(&self, before: Self, key: Seq<char>, value: TextureView<F>)
        requires
            before.wf(),
            before.generation() < self.generation(),
            value.0 == generation_source(self.generation(), key),
            forall|j: int| 0 <= j < before.entries().len() ==> #[trigger] before.entries()[j].0 != key,
            self.entries() == before.entries().push((key, value)),
        ensures
            self.wf(),
            self.bindings() == before.bindings().insert(key, value),
    {
        let (old_e, new_e) = (before.entries(), self.entries());
        assert(distinct_keys(new_e)) by {
            assert forall|a: int, b: int|
                0 <= a < new_e.len() && 0 <= b < new_e.len() && a != b implies #[trigger] new_e[a].0
                != #[trigger] new_e[b].0 by {
                if a < old_e.len() && b < old_e.len() {
                    assert(old_e[a].0 != old_e[b].0);
                } else if a < old_e.len() {
                    assert(old_e[a].0 != key);
                } else {
                    assert(old_e[b].0 != key);
                }
            }
        }
        assert forall|j: int| 0 <= j < new_e.len() implies handed_out(
            (#[trigger] new_e[j]).1.0,
            new_e[j].0,
            self.generation(),
        ) by {
            if j == old_e.len() {
                assert(value.0 == generation_source(self.generation(), key));
            } else {
                assert(new_e[j] == old_e[j]);
                lemma_handed_out_later(old_e[j].1.0, old_e[j].0, before.generation(), self.generation());
            }
        }
        assert forall|k: Seq<char>| #[trigger] bound_to(new_e, k) == (if k == key {
            Some(value)
        } else {
            bound_to(old_e, k)
        }) by {
            if k == key {
                lemma_bound_at(new_e, old_e.len() as int);
            } else if exists|j: int| 0 <= j < old_e.len() && #[trigger] old_e[j].0 == k {
                let j = choose|j: int| 0 <= j < old_e.len() && #[trigger] old_e[j].0 == k;
                lemma_bound_at(old_e, j);
                assert(new_e[j] == old_e[j]);
                lemma_bound_at(new_e, j);
            } else {
                assert forall|j: int| 0 <= j < new_e.len() implies #[trigger] new_e[j].0 != k by {
                    if j < old_e.len() {
                        assert(new_e[j] == old_e[j]);
                    }
                }
            }
        }
        assert(self.bindings() =~= before.bindings().insert(key, value));
    }
}

impl<F: Copy> CaptureCatalog<F> {
    proof fn lemma_generation_advanced(&self, before: Self)
        requires
            before.wf(),
            self.entries() == before.entries(),
            before.generation() <= self.generation(),
        ensures
            self.wf(),
            self.bindings() == before.bindings(),
    {
        let e = self.entries();
        assert forall|j: int| 0 <= j < e.len() implies handed_out(
            (#[trigger] e[j]).1.0,
            e[j].0,
            self.generation(),
        ) by {
            lemma_handed_out_later(e[j].1.0, e[j].0, before.generation(), self.generation());
        }
        assert(self.bindings() =~= before.bindings());
    }

    /// Every bound name reads a capture generation of its own name, one
    /// that has been handed out: a binding never points at file pixels.
    pub proof fn law_bindings_read_their_own_generations(&self)
        requires
            self.wf(),
        ensures
            forall|k: Seq<char>| #[trigger] self.bindings().contains_key(k) ==> handed_out(
                self.bindings()[k].0,
                k,
                self.generation(),
            ),
    {
        let e = self.entries();
        assert forall|k: Seq<char>| #[trigger] self.bindings().contains_key(k) implies handed_out(
            self.bindings()[k].0,
            k,
            self.generation(),
        ) by {
            let j = choose|j: int| 0 <= j < e.len() && #[trigger] e[j].0 == k;
            lemma_bound_at(e, j);
        }
    }
}

/// A texture with the same source, size and format.
fn copy_texture<F: Copy>(texture: &ResolvedTexture<F>) -> (copy: ResolvedTexture<F>)
    ensures
        texture_view(copy) == texture_view(*texture),
{
    ResolvedTexture {
        source: texture.source.clone(),
        width: texture.width,
        height: texture.height,
        surface_format: texture.surface_format,
    }
}

fn starts_with_capture_open(logical: &str) -> (starts: bool)
    ensures
        starts == is_capture_name(logical@),
{
    let chars = chars_of(logical);
    if chars.len() < 9 {
        return false;
    }
    let open = ['<', 'c', 'a', 'p', 't', 'u', 'r', 'e', ':'];
    let mut i: usize = 0;
    while i < 9
        invariant
            0 <= i <= 9,
            chars@ == logical@,
            chars@.len() >= 9,
            open@ == capture_open(),
            forall|j: int| 0 <= j < i ==> chars@[j] == capture_open()[j],
        decreases 9 - i,
    {
        if chars[i] != open[i] {
            assert(logical@.take(9)[i as int] != capture_open()[i as int]);
            return false;
        }
        i = i + 1;
    }
    assert(logical@.take(9) =~= capture_open());
    true
}

/// `<capture-generation:{generation}:{logical}>`.
fn generation_source_text(generation: u64, logical: &str) -> (source: String)
    requires
        byte_len(logical@) + 64 <= isize::MAX,
    ensures
        source@ == generation_source(generation as nat, logical@),
{
    let mut out: Vec<char> = Vec::new();
    let open = [
        '<', 'c', 'a', 'p', 't', 'u', 'r', 'e', '-', 'g', 'e', 'n', 'e', 'r', 'a', 't', 'i', 'o', 'n',
        ':',
    ];
    push_chars(&mut out, open.as_slice());
    push_decimal(&mut out, generation);
    out.push(':');
    let name = chars_of(logical);
    push_chars(&mut out, name.as_slice());
    out.push('>');
    proof {
        assert(open@ =~= generation_open());
        assert(out@ =~= generation_source(generation as nat, logical@));
        lemma_source_bytes(generation as nat, logical@);
    }
    string_from_chars(&out)
}

/// `10^k`.
pub open spec fn power_of_ten(k: nat) -> nat
    decreases k,
{
    if k == 0 {
        1
    } else {
        10 * power_of_ten((k - 1) as nat)
    }
}

proof fn lemma_decimal_len(n: nat, k: nat)
    requires
        n < power_of_ten(k + 1),
    ensures
        decimal(n).len() <= k + 1,
    decreases k,
{
    if n >= 10 {
        if k == 0 {
            assert(power_of_ten(1) == 10);
        } else {
            let p = power_of_ten(k);
            assert(n / 10 < p) by (nonlinear_arith)
                requires
                    n < 10 * p,
            ;
            lemma_decimal_len(n / 10, (k - 1) as nat);
        }
    }
}

proof fn lemma_ascii_bytes(s: Seq<char>)
    requires
        forall|i: int| 0 <= i < s.len() ==> (#[trigger] s[i] as u32) <= 0x7f,
    ensures
        byte_len(s) == s.len(),
{
    crate::text::lemma_byte_len_at_least_len(s);
}

proof fn lemma_source_bytes(generation: nat, logical: Seq<char>)
    requires
        generation <= u64::MAX,
    ensures
        byte_len(generation_source(generation, logical)) <= byte_len(logical) + 64,
{
    let d = decimal(generation);
    lemma_decimal(generation);
    assert(power_of_ten(20) == 100000000000000000000) by {
        reveal_with_fuel(power_of_ten, 21);
    }
    lemma_decimal_len(generation, 19);
    let open = generation_open();
    let (colon, close) = (seq![':'], seq!['>']);
    lemma_ascii_bytes(open);
    lemma_ascii_bytes(d);
    lemma_ascii_bytes(colon);
    lemma_ascii_bytes(close);
    crate::text::lemma_encode_concat(open, d);
    crate::text::lemma_encode_concat(open + d, colon);
    crate::text::lemma_encode_concat(open + d + colon, logical);
    crate::text::lemma_encode_concat(open + d + colon + logical, close);
}

} // verus!
