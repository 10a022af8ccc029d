use vstd::prelude::*;

use crate::text::{
    decimal_text, lemma_decimal_text, lemma_parse_u16_decimal, lemma_split_nonempty, parse_u16,
    parse_u16_spec, split_char, split_spec,
};

verus! {

/// One `/`-separated segment of the URL hash: `[foreign_key.]page_key[.tab_num]`.
#[derive(Debug, Clone)]
pub struct HashPart {
    pub foreign_key: Option<String>,
    pub page_key: String,
    pub tab_num: u16,
}

/// The mathematical value of a [`HashPart`].
pub struct HashPartView {
    pub foreign_key: Option<Seq<char>>,
    pub page_key: Seq<char>,
    pub tab_num: u16,
}

/// The view of an optional string.
pub open spec fn opt_str_view(o: Option<String>) -> Option<Seq<char>> {
    match o {
        Some(s) => Some(s@),
        None => None,
    }
}

impl View for HashPart {
    type V = HashPartView;

    open spec fn view(&self) -> HashPartView {
        HashPartView {
            foreign_key: opt_str_view(self.foreign_key),
            page_key: self.page_key@,
            tab_num: self.tab_num,
        }
    }
}

/// The parsed URL hash: its non-empty segments, in order.
#[derive(Debug, Clone)]
pub struct UrlHash {
    pub hash_parts: Vec<HashPart>,
}

impl View for UrlHash {
    type V = Seq<HashPartView>;

    open spec fn view(&self) -> Seq<HashPartView> {
        self.hash_parts@.map_values(|p: HashPart| p@)
    }
}

/// The value of an empty [`HashPart`].
pub open spec fn default_hash_part() -> HashPartView {
    HashPartView { foreign_key: None, page_key: Seq::empty(), tab_num: 0 }
}

/// A tab number field: its `u16` value, or 0 when it is not one.
pub open spec fn tab_num_spec(field: Seq<char>) -> u16 {
    match parse_u16_spec(field) {
        Some(n) => n,
        None => 0,
    }
}

/// How one segment reads: three `.`-fields are foreign key, page key and tab
/// number; two are page key and tab number; one is the page key alone; any
/// other count gives the empty part.
pub open spec fn hash_part_spec(segment: Seq<char>) -> HashPartView {
    let fields = split_spec(segment, '.');
    if fields.len() == 3 {
        HashPartView {
            foreign_key: Some(fields[0]),
            page_key: fields[1],
            tab_num: tab_num_spec(fields[2]),
        }
    } else if fields.len() == 2 {
        HashPartView { foreign_key: None, page_key: fields[0], tab_num: tab_num_spec(fields[1]) }
    } else if fields.len() == 1 {
        HashPartView { foreign_key: None, page_key: fields[0], tab_num: 0 }
    } else {
        default_hash_part()
    }
}

/// The parts of the non-empty segments of `segments`, in order.
pub open spec fn parts_of_segments(segments: Seq<Seq<char>>) -> Seq<HashPartView>
    decreases segments.len(),
{
    if segments.len() == 0 {
        Seq::empty()
    } else {
        let rest = parts_of_segments(segments.drop_last());
        if segments.last().len() == 0 {
            rest
        } else {
            rest.push(hash_part_spec(segments.last()))
        }
    }
}

/// The raw hash with at most one leading `#` removed.
pub open spec fn strip_hash_mark(raw: Seq<char>) -> Seq<char> {
    if raw.len() > 0 && raw[0] == '#' {
        raw.drop_first()
    } else {
        raw
    }
}

/// What `UrlHash::parse` yields for `raw`.
pub open spec fn url_hash_spec(raw: Seq<char>) -> Seq<HashPartView> {
    parts_of_segments(split_spec(strip_hash_mark(raw), '/'))
}

impl Default for HashPart {
    fn default() -> (part: HashPart)
        ensures
            part@ == default_hash_part(),
    {
        HashPart::empty()
    }
}

impl Default for UrlHash {
    fn default() -> (h: UrlHash)
        ensures
            h@ == Seq::<HashPartView>::empty(),
    {
        UrlHash::empty()
    }
}

impl HashPart {
    /// The empty part: no foreign key, empty page key, tab 0.
    pub fn empty() -> (part: HashPart)
        ensures
            part@ == default_hash_part(),
    {
        HashPart { foreign_key: None, page_key: String::new(), tab_num: 0 }
    }

    /// Reads one `/`-separated segment of the hash.
    pub fn parse(segment: &str) -> (part: HashPart)
        ensures
            part@ == hash_part_spec(segment@),
    {
        let fields = split_char(segment, '.');
        let ghost fv = fields.deep_view();
        assert(fv.len() == fields.len());
        if fields.len() == 3 {
            assert(fields[0]@ == fv[0] && fields[1]@ == fv[1] && fields[2]@ == fv[2]);
            let tab = match parse_u16(fields[2].as_str()) {
                Some(n) => n,
                None => 0,
            };
            HashPart {
                foreign_key: Some(fields[0].clone()),
                page_key: fields[1].clone(),
                tab_num: tab,
            }
        } else if fields.len() == 2 {
            assert(fields[0]@ == fv[0] && fields[1]@ == fv[1]);
            let tab = match parse_u16(fields[1].as_str()) {
                Some(n) => n,
                None => 0,
            };
            HashPart { foreign_key: None, page_key: fields[0].clone(), tab_num: tab }
        } else if fields.len() == 1 {
            assert(fields[0]@ == fv[0]);
            HashPart { foreign_key: None, page_key: fields[0].clone(), tab_num: 0 }
        } else {
            HashPart::empty()
        }
    }
}

impl UrlHash {
    /// The hash with no parts.
    pub fn empty() -> (h: UrlHash)
        ensures
            h@ == Seq::<HashPartView>::empty(),
    {
        let h = UrlHash { hash_parts: Vec::new() };
        assert(h@ =~= Seq::<HashPartView>::empty());
        h
    }

    /// Parses a URL hash such as `#fk.page.2/other`: one leading `#` is
    /// dropped, the rest is split at `/`, empty segments are skipped and each
    /// remaining segment is read by [`HashPart::parse`].
    pub fn parse(raw: &str) -> (h: UrlHash)
        ensures
            h@ == url_hash_spec(raw@),
    {
        let n = raw.unicode_len();
        let stripped: &str = if n > 0 && raw.get_char(0) == '#' {
            raw.substring_char(1, n)
        } else {
            raw
        };
        assert(stripped@ =~= strip_hash_mark(raw@));
        let segments = split_char(stripped, '/');
        let ghost sv = segments.deep_view();
        let mut parts: Vec<HashPart> = Vec::new();
        let mut i: usize = 0;
        assert(sv.subrange(0, 0) =~= Seq::<Seq<char>>::empty());
        assert(parts@.map_values(|p: HashPart| p@) =~= Seq::<HashPartView>::empty());
        while i < segments.len()
            invariant
                sv == segments.deep_view(),
                sv.len() == segments.len(),
                i <= segments.len(),
                parts@.map_values(|p: HashPart| p@) == parts_of_segments(
                    sv.subrange(0, i as int),
                ),
            decreases segments.len() - i,
        {
            let ghost prev = sv.subrange(0, i as int);
            let ghost next = sv.subrange(0, i + 1);
            assert(next.drop_last() =~= prev);
            assert(next.last() == segments[i as int]@);
            let ghost before = parts@.map_values(|p: HashPart| p@);
            if !segments[i].as_str().is_empty() {
                let part = HashPart::parse(segments[i].as_str());
                parts.push(part);
                assert(parts@.map_values(|p: HashPart| p@) =~= before.push(part@));
            } else {
                assert(segments[i as int]@.len() == 0);
            }
            i = i + 1;
        }
        assert(sv.subrange(0, sv.len() as int) =~= sv);
        UrlHash { hash_parts: parts }
    }
}


impl HashPart {
    /// Whether two parts are equal field by field.
    pub fn same_as(&self, other: &HashPart) -> (b: bool)
        ensures
            b == (self@ == other@),
    {
        let fk = match (&self.foreign_key, &other.foreign_key) {
            (Some(a), Some(b)) => *a == *b,
            (None, None) => true,
            _ => false,
        };
        fk && self.page_key == other.page_key && self.tab_num == other.tab_num
    }
}

impl UrlHash {
    /// Whether two hashes have the same parts, in the same order.
    pub fn same_as(&self, other: &UrlHash) -> (b: bool)
        ensures
            b == (self@ == other@),
    {
        if self.hash_parts.len() != other.hash_parts.len() {
            assert(self@.len() != other@.len());
            return false;
        }
        let mut i: usize = 0;
        while i < self.hash_parts.len()
            invariant
                self.hash_parts.len() == other.hash_parts.len(),
                i <= self.hash_parts.len(),
                forall|j: int| 0 <= j < i ==> self@[j] == other@[j],
            decreases self.hash_parts.len() - i,
        {
            if !self.hash_parts[i].same_as(&other.hash_parts[i]) {
                assert(self@[i as int] != other@[i as int]);
                return false;
            }
            i = i + 1;
        }
        assert(self@ =~= other@);
        true
    }
}

/// The value of the URL hash after a hash change: `None` when there is no new
/// raw hash or it parses to the current value, else the newly parsed hash.
pub open spec fn sync_spec(current: Seq<HashPartView>, raw: Option<Seq<char>>) -> Option<Seq<HashPartView>> {
    match raw {
        None => None,
        Some(r) => if url_hash_spec(r) == current {
            None
        } else {
            Some(url_hash_spec(r))
        },
    }
}

/// The new value of the URL hash when the page reports `raw`: the parsed
/// hash when it differs from `current`, `None` when nothing changes.
pub fn sync_url_hash(current: &UrlHash, raw: Option<&str>) -> (next: Option<UrlHash>)
    ensures
        match sync_spec(current@, match raw {
            Some(r) => Some(r@),
            None => None,
        }) {
            None => next is None,
            Some(v) => next is Some && next.unwrap()@ == v,
        },
{
    match raw {
        None => None,
        Some(r) => {
            let parsed = UrlHash::parse(r);
            if parsed.same_as(current) {
                None
            } else {
                Some(parsed)
            }
        },
    }
}

/// Seeds the URL hash on start-up from an optional initial hash.
#[derive(Debug, Clone)]
pub struct UrlListenerPlugin {
    pub initial_hash: Option<String>,
}

impl UrlListenerPlugin {
    /// The URL hash to start with: the parsed initial hash, or no parts.
    pub fn seeded_hash(&self) -> (h: UrlHash)
        ensures
            match self.initial_hash {
                Some(s) => h@ == url_hash_spec(s@),
                None => h@ == Seq::<HashPartView>::empty(),
            },
    {
        match &self.initial_hash {
            Some(s) => UrlHash::parse(s.as_str()),
            None => UrlHash::empty(),
        }
    }
}

proof fn lemma_split_concat(x: Seq<char>, y: Seq<char>, sep: char)
    ensures
        split_spec(x.push(sep) + y, sep) == split_spec(x, sep) + split_spec(y, sep),
    decreases y.len(),
{
    if y.len() == 0 {
        assert(x.push(sep) + y =~= x.push(sep));
        assert(x.push(sep).drop_last() =~= x);
        assert(split_spec(x, sep).push(Seq::<char>::empty()) =~= split_spec(x, sep) + seq![
            Seq::<char>::empty(),
        ]);
    } else {
        let whole = x.push(sep) + y;
        assert(whole.drop_last() =~= x.push(sep) + y.drop_last());
        assert(whole.last() == y.last());
        lemma_split_concat(x, y.drop_last(), sep);
        lemma_split_nonempty(y.drop_last(), sep);
        let a = split_spec(x, sep);
        let b = split_spec(y.drop_last(), sep);
        if y.last() == sep {
            assert((a + b).push(Seq::<char>::empty()) =~= a + b.push(Seq::<char>::empty()));
        } else {
            assert((a + b).update((a + b).len() - 1, (a + b).last().push(y.last())) =~= a + b.update(
                b.len() - 1,
                b.last().push(y.last()),
            ));
        }
    }
}

proof fn lemma_parts_concat(a: Seq<Seq<char>>, b: Seq<Seq<char>>)
    ensures
        parts_of_segments(a + b) == parts_of_segments(a) + parts_of_segments(b),
    decreases b.len(),
{
    if b.len() == 0 {
        assert(a + b =~= a);
        assert(parts_of_segments(a) + parts_of_segments(b) =~= parts_of_segments(a));
    } else {
        assert((a + b).drop_last() =~= a + b.drop_last());
        assert((a + b).last() == b.last());
        lemma_parts_concat(a, b.drop_last());
        if b.last().len() == 0 {
        } else {
            assert((parts_of_segments(a) + parts_of_segments(b.drop_last())).push(
                hash_part_spec(b.last()),
            ) =~= parts_of_segments(a) + parts_of_segments(b.drop_last()).push(
                hash_part_spec(b.last()),
            ));
        }
    }
}

/// Joining two hashes with `/` joins their parts: the parts of `x/y` are the
/// parts of `x` followed by the parts of `y` (when `y` does not itself start
/// with the `#` that only a whole hash may start with).
pub proof fn law_hash_parts_concatenate(x: Seq<char>, y: Seq<char>)
    requires
        !(y.len() > 0 && y[0] == '#'),
    ensures
        url_hash_spec(x.push('/') + y) == url_hash_spec(x) + url_hash_spec(y),
{
    let whole = x.push('/') + y;
    if x.len() > 0 && x[0] == '#' {
        assert(strip_hash_mark(whole) =~= x.drop_first().push('/') + y);
        lemma_split_concat(x.drop_first(), y, '/');
    } else {
        assert(whole[0] == (if x.len() > 0 { x[0] } else { '/' }));
        assert(strip_hash_mark(whole) == whole);
        lemma_split_concat(x, y, '/');
    }
    assert(strip_hash_mark(y) == y);
    lemma_parts_concat(split_spec(strip_hash_mark(x), '/'), split_spec(y, '/'));
}

/// One leading `#` is optional: the hash reads the same with or without it.
pub proof fn law_hash_mark_optional(raw: Seq<char>)
    requires
        !(raw.len() > 0 && raw[0] == '#'),
    ensures
        url_hash_spec(seq!['#'] + raw) == url_hash_spec(raw),
{
    assert((seq!['#'] + raw).drop_first() =~= raw);
}

/// No character of `s` is `c`.
pub open spec fn free_of(s: Seq<char>, c: char) -> bool {
    forall|i: int| 0 <= i < s.len() ==> #[trigger] s[i] != c
}

/// How a part is written in a hash: `foreign_key.page_key.tab_num`, or
/// `page_key.tab_num` without a foreign key, the tab number in decimal.
pub open spec fn hash_part_text(p: HashPartView) -> Seq<char> {
    let tail = p.page_key.push('.') + decimal_text(p.tab_num as nat);
    match p.foreign_key {
        Some(f) => f.push('.') + tail,
        None => tail,
    }
}

/// The parts written one after another, separated by `/` (without the `#`).
pub open spec fn hash_text(parts: Seq<HashPartView>) -> Seq<char>
    decreases parts.len(),
{
    if parts.len() == 0 {
        Seq::empty()
    } else if parts.len() == 1 {
        hash_part_text(parts[0])
    } else {
        hash_text(parts.drop_last()).push('/') + hash_part_text(parts.last())
    }
}

/// Neither key of `p` holds a `.` or a `/`.
pub open spec fn plain_keys(p: HashPartView) -> bool {
    &&& free_of(p.page_key, '.')
    &&& free_of(p.page_key, '/')
    &&& (p.foreign_key matches Some(f) ==> free_of(f, '.') && free_of(f, '/'))
}

proof fn lemma_split_free(s: Seq<char>, sep: char)
    requires
        free_of(s, sep),
    ensures
        split_spec(s, sep) == seq![s],
    decreases s.len(),
{
    if s.len() > 0 {
        lemma_split_free(s.drop_last(), sep);
        assert(s.drop_last().push(s.last()) =~= s);
        assert(seq![s.drop_last()].update(0, s.drop_last().push(s.last())) =~= seq![s]);
    } else {
        assert(s =~= Seq::<char>::empty());
    }
}

proof fn lemma_free_concat(a: Seq<char>, b: Seq<char>, c: char)
    requires
        free_of(a, c),
        free_of(b, c),
    ensures
        free_of(a + b, c),
{
    assert forall|i: int| 0 <= i < (a + b).len() implies #[trigger] (a + b)[i] != c by {
        if i < a.len() {
            assert((a + b)[i] == a[i]);
        } else {
            assert((a + b)[i] == b[i - a.len()]);
        }
    }
}

proof fn lemma_decimal_free(n: nat, c: char)
    requires
        c == '.' || c == '/',
    ensures
        free_of(decimal_text(n), c),
{
    lemma_decimal_text(n);
    let t = decimal_text(n);
    assert forall|i: int| 0 <= i < t.len() implies #[trigger] t[i] != c by {
        assert(crate::text::is_decimal_digit(t[i]));
    }
}

proof fn lemma_part_round_trip(p: HashPartView)
    requires
        plain_keys(p),
    ensures
        hash_part_spec(hash_part_text(p)) == p,
        hash_part_text(p).len() > 0,
        free_of(hash_part_text(p), '/'),
{
    let dec = decimal_text(p.tab_num as nat);
    let tail = p.page_key.push('.') + dec;
    lemma_decimal_free(p.tab_num as nat, '.');
    lemma_decimal_free(p.tab_num as nat, '/');
    lemma_parse_u16_decimal(p.tab_num);
    lemma_split_free(p.page_key, '.');
    lemma_split_free(dec, '.');
    lemma_split_concat(p.page_key, dec, '.');
    assert(free_of(seq!['.'], '/'));
    lemma_free_concat(p.page_key, seq!['.'], '/');
    assert(p.page_key.push('.') =~= p.page_key + seq!['.']);
    lemma_free_concat(p.page_key.push('.'), dec, '/');
    assert(tail.len() > 0);
    match p.foreign_key {
        Some(f) => {
            lemma_split_free(f, '.');
            lemma_split_concat(f, tail, '.');
            assert(split_spec(hash_part_text(p), '.') =~= seq![f, p.page_key, dec]);
            lemma_free_concat(f, seq!['.'], '/');
            assert(f.push('.') =~= f + seq!['.']);
            lemma_free_concat(f.push('.'), tail, '/');
        },
        None => {
            assert(split_spec(hash_part_text(p), '.') =~= seq![p.page_key, dec]);
        },
    }
}

proof fn lemma_hash_text_segments(parts: Seq<HashPartView>)
    requires
        parts.len() > 0,
        forall|i: int| 0 <= i < parts.len() ==> plain_keys(#[trigger] parts[i]),
    ensures
        split_spec(hash_text(parts), '/') == parts.map_values(|p: HashPartView| hash_part_text(p)),
    decreases parts.len(),
{
    let last = parts[parts.len() - 1];
    lemma_part_round_trip(last);
    lemma_split_free(hash_part_text(last), '/');
    if parts.len() == 1 {
        assert(parts.map_values(|p: HashPartView| hash_part_text(p)) =~= seq![hash_part_text(last)]);
    } else {
        let init = parts.drop_last();
        assert forall|i: int| 0 <= i < init.len() implies plain_keys(#[trigger] init[i]) by {
            assert(init[i] == parts[i]);
        }
        lemma_hash_text_segments(init);
        lemma_split_concat(hash_text(init), hash_part_text(last), '/');
        assert(parts.map_values(|p: HashPartView| hash_part_text(p)) =~= init.map_values(
            |p: HashPartView| hash_part_text(p),
        ) + seq![hash_part_text(last)]);
    }
}

proof fn lemma_parts_of_written(parts: Seq<HashPartView>)
    requires
        forall|i: int| 0 <= i < parts.len() ==> plain_keys(#[trigger] parts[i]),
    ensures
        parts_of_segments(parts.map_values(|p: HashPartView| hash_part_text(p))) == parts,
    decreases parts.len(),
{
    if parts.len() > 0 {
        let init = parts.drop_last();
        let last = parts[parts.len() - 1];
        assert forall|i: int| 0 <= i < init.len() implies plain_keys(#[trigger] init[i]) by {
            assert(init[i] == parts[i]);
        }
        lemma_parts_of_written(init);
        lemma_part_round_trip(last);
        let segs = parts.map_values(|p: HashPartView| hash_part_text(p));
        assert(segs.drop_last() =~= init.map_values(|p: HashPartView| hash_part_text(p)));
        assert(segs.last() == hash_part_text(last));
        assert(init.push(last) =~= parts);
    } else {
        assert(parts.map_values(|p: HashPartView| hash_part_text(p)) =~= Seq::<Seq<char>>::empty());
        assert(parts =~= Seq::<HashPartView>::empty());
    }
}

/// Parsing a hash written from parts gives those parts back, when no key
/// holds a `.` or a `/`; in particular both the empty hash and a lone `#`
/// have no parts.
pub proof fn law_hash_round_trip(parts: Seq<HashPartView>)
    requires
        forall|i: int| 0 <= i < parts.len() ==> plain_keys(#[trigger] parts[i]),
    ensures
        url_hash_spec(seq!['#'] + hash_text(parts)) == parts,
        url_hash_spec(Seq::empty()) == Seq::<HashPartView>::empty(),
{
    let raw = seq!['#'] + hash_text(parts);
    assert(raw[0] == '#');
    assert(raw.drop_first() =~= hash_text(parts));
    assert(strip_hash_mark(raw) == hash_text(parts));
    let none = seq![Seq::<char>::empty()];
    assert(strip_hash_mark(Seq::<char>::empty()) == Seq::<char>::empty());
    assert(split_spec(Seq::<char>::empty(), '/') == none);
    assert(none.drop_last() =~= Seq::<Seq<char>>::empty());
    assert(parts_of_segments(none) == parts_of_segments(Seq::<Seq<char>>::empty()));
    if parts.len() > 0 {
        lemma_hash_text_segments(parts);
        lemma_parts_of_written(parts);
    } else {
        assert(hash_text(parts) =~= Seq::<char>::empty());
        assert(parts =~= Seq::<HashPartView>::empty());
        assert(parts_of_segments(none) =~= Seq::<HashPartView>::empty());
    }
}

} // verus!
