//! Text as a sequence of characters: searching, splitting, trimming, joining
//! and replacing, each with an exact contract over `Seq<char>`.
use vstd::prelude::*;
use vstd::string::*;
use vstd::utf8::*;

verus! {

broadcast use vstd::seq_lib::group_seq_properties;

/// `String::push`: appends one character.
pub assume_specification[ String::push ](s: &mut String, c: char)
    ensures
        final(s)@ == old(s)@.push(c),
;

/// The characters of `s`, in order.
pub fn chars_of(s: &str) -> (r: Vec<char>)
    ensures
        r@ == s@,
{
    let mut r: Vec<char> = Vec::new();
    for c in iter: s.chars()
        invariant
            iter.seq() == s@,
            r@ == s@.take(iter.index() as int),
    {
        r.push(c);
    }
    r
}

/// The text whose characters are `chars`.
pub fn text_of(chars: &[char]) -> (r: String)
    ensures
        r@ == chars@,
{
    let mut r: String = String::new();
    let mut i: usize = 0;
    while i < chars.len()
        invariant
            i <= chars@.len(),
            r@ == chars@.take(i as int),
        decreases chars@.len() - i,
    {
        r.push(chars[i]);
        i += 1;
    }
    r
}


/// `p` stands in `s` at position `i`.
pub open spec fn occurs_at(s: Seq<char>, p: Seq<char>, i: int) -> bool {
    0 <= i && i + p.len() <= s.len() && s.subrange(i, i + p.len()) == p
}

/// `p` stands somewhere in `s`.
pub open spec fn has(s: Seq<char>, p: Seq<char>) -> bool {
    exists|i: int| occurs_at(s, p, i)
}

/// The first position at or behind `from` at which `p` stands in `s`.
pub open spec fn find_from(s: Seq<char>, p: Seq<char>, from: int) -> Option<int>
    decreases s.len() + 1 - from,
{
    if from < 0 || from + p.len() > s.len() {
        None
    } else if occurs_at(s, p, from) {
        Some(from)
    } else {
        find_from(s, p, from + 1)
    }
}

/// What `find_from` finds is an occurrence, none comes before it, and it finds
/// one where there is one.
pub proof fn find_from_is_first(s: Seq<char>, p: Seq<char>, from: int)
    requires
        from >= 0,
    ensures
        match find_from(s, p, from) {
            Some(i) => from <= i && occurs_at(s, p, i) && (forall|j: int|
                from <= j < i ==> !occurs_at(s, p, j)),
            None => forall|j: int| from <= j ==> !occurs_at(s, p, j),
        },
    decreases s.len() + 1 - from,
{
    if from + p.len() > s.len() {
    } else if occurs_at(s, p, from) {
    } else {
        find_from_is_first(s, p, from + 1);
    }
}

/// `has` is what `find_from` decides.
pub proof fn has_iff_found(s: Seq<char>, p: Seq<char>)
    ensures
        has(s, p) <==> find_from(s, p, 0) is Some,
{
    find_from_is_first(s, p, 0);
    if has(s, p) {
        let i = choose|i: int| occurs_at(s, p, i);
        assert(occurs_at(s, p, i));
    }
}

/// The position that an executable search returned, as an integer.
pub open spec fn position(r: Option<usize>) -> Option<int> {
    match r {
        Some(i) => Some(i as int),
        None => None,
    }
}

/// Whether `p` stands in `s` at `i`.
pub fn matches_at(s: &[char], p: &[char], i: usize) -> (r: bool)
    requires
        i <= s@.len(),
    ensures
        r == occurs_at(s@, p@, i as int),
{
    if s.len() - i < p.len() {
        return false;
    }
    let n: usize = s.len();
    let mut j: usize = 0;
    while j < p.len()
        invariant
            n == s@.len(),
            i + p@.len() <= n,
            j <= p@.len(),
            forall|k: int| 0 <= k < j ==> s@[i + k] == p@[k],
        decreases p@.len() - j,
    {
        if s[i + j] != p[j] {
            assert(s@.subrange(i as int, i + p@.len())[j as int] == s@[i + j]);
            return false;
        }
        j += 1;
    }
    assert(s@.subrange(i as int, i + p@.len()) =~= p@);
    true
}

/// The first position of `p` in `s` at or behind `from`.
pub fn find(s: &[char], p: &[char], from: usize) -> (r: Option<usize>)
    requires
        from <= s@.len(),
    ensures
        position(r) == find_from(s@, p@, from as int),
        r matches Some(i) ==> from <= i && i + p@.len() <= s@.len(),
{
    let mut i: usize = from;
    while s.len() - i >= p.len()
        invariant
            from <= i <= s@.len(),
            find_from(s@, p@, from as int) == find_from(s@, p@, i as int),
        decreases s@.len() - i,
    {
        if matches_at(s, p, i) {
            return Some(i);
        }
        assert(i < s@.len()) by {
            if i == s@.len() {
                assert(s@.subrange(i as int, i as int) =~= p@);
            }
        }
        i += 1;
    }
    None
}

/// Whether `p` stands somewhere in `s`.
pub fn contains(s: &[char], p: &[char]) -> (r: bool)
    ensures
        r == has(s@, p@),
{
    proof {
        has_iff_found(s@, p@);
    }
    find(s, p, 0).is_some()
}

/// Whether the words `p` stand somewhere in `s`.
pub fn mentions(s: &[char], p: &str) -> (r: bool)
    ensures
        r == has(s@, p@),
{
    let p = chars_of(p);
    contains(s, p.as_slice())
}

/// The length of a text in bytes.
pub fn byte_len(s: &[char]) -> (r: usize)
    ensures
        r == encode_utf8(s@).len(),
{
    let t = text_of(s);
    t.as_str().as_bytes().len()
}

/// Whether `s` is the text `p`.
pub fn equals(s: &str, p: &str) -> (r: bool)
    ensures
        r == (s@ == p@),
{
    let s = chars_of(s);
    let p = chars_of(p);
    same(s.as_slice(), p.as_slice())
}

/// Whether two texts are the same.
pub fn same(a: &[char], b: &[char]) -> (r: bool)
    ensures
        r == (a@ == b@),
{
    if a.len() != b.len() {
        return false;
    }
    let r = matches_at(a, b, 0);
    assert(a@.subrange(0, a@.len() as int) =~= a@);
    r
}

/// Whether `s` begins with `p`.
pub open spec fn starts_with(s: Seq<char>, p: Seq<char>) -> bool {
    occurs_at(s, p, 0)
}

/// Whether `s` ends with `p`.
pub open spec fn ends_with(s: Seq<char>, p: Seq<char>) -> bool {
    occurs_at(s, p, s.len() - p.len())
}

/// Whether `s` begins with `p`.
pub fn begins(s: &[char], p: &[char]) -> (r: bool)
    ensures
        r == starts_with(s@, p@),
{
    matches_at(s, p, 0)
}

/// Whether `s` ends with `p`.
pub fn ends(s: &[char], p: &[char]) -> (r: bool)
    ensures
        r == ends_with(s@, p@),
{
    if s.len() < p.len() {
        return false;
    }
    matches_at(s, p, s.len() - p.len())
}

/// A copy of `s[from..to]`.
pub fn cut(s: &[char], from: usize, to: usize) -> (r: Vec<char>)
    requires
        from <= to <= s@.len(),
    ensures
        r@ == s@.subrange(from as int, to as int),
{
    let mut r: Vec<char> = Vec::new();
    let mut i: usize = from;
    while i < to
        invariant
            from <= i <= to <= s@.len(),
            r@ == s@.subrange(from as int, i as int),
        decreases to - i,
    {
        r.push(s[i]);
        i += 1;
        assert(s@.subrange(from as int, i as int) =~= s@.subrange(from as int, i - 1).push(s@[i - 1]));
    }
    r
}

/// Appends `more` to `s`.
pub fn extend(s: &mut Vec<char>, more: &[char])
    ensures
        final(s)@ == old(s)@ + more@,
{
    let mut i: usize = 0;
    let ghost start = s@;
    while i < more.len()
        invariant
            i <= more@.len(),
            s@ == start + more@.take(i as int),
        decreases more@.len() - i,
    {
        s.push(more[i]);
        i += 1;
        assert(more@.take(i as int) =~= more@.take(i - 1).push(more@[i - 1]));
    }
    assert(more@.take(more@.len() as int) =~= more@);
}

/// `s` without its prefix `p`, where it has it.
pub open spec fn without_prefix(s: Seq<char>, p: Seq<char>) -> Option<Seq<char>> {
    if starts_with(s, p) {
        Some(s.skip(p.len() as int))
    } else {
        None
    }
}

/// `s` without its suffix `p`, where it has it.
pub open spec fn without_suffix(s: Seq<char>, p: Seq<char>) -> Option<Seq<char>> {
    if ends_with(s, p) {
        Some(s.take(s.len() - p.len()))
    } else {
        None
    }
}

/// The characters that a stripping function returned.
pub open spec fn content(r: Option<Vec<char>>) -> Option<Seq<char>> {
    match r {
        Some(v) => Some(v@),
        None => None,
    }
}

/// `s` without its prefix `p`, where it has it.
pub fn strip_prefix(s: &[char], p: &[char]) -> (r: Option<Vec<char>>)
    ensures
        content(r) == without_prefix(s@, p@),
{
    if begins(s, p) {
        let r = cut(s, p.len(), s.len());
        assert(r@ =~= s@.skip(p@.len() as int));
        Some(r)
    } else {
        None
    }
}

/// `s` without its suffix `p`, where it has it.
pub fn strip_suffix(s: &[char], p: &[char]) -> (r: Option<Vec<char>>)
    ensures
        content(r) == without_suffix(s@, p@),
{
    if ends(s, p) {
        let r = cut(s, 0, s.len() - p.len());
        assert(r@ =~= s@.take(s@.len() - p@.len()));
        Some(r)
    } else {
        None
    }
}

/// Whether `s` begins with the words `p`.
pub fn begins_with(s: &[char], p: &str) -> (r: bool)
    ensures
        r == starts_with(s@, p@),
{
    let p = chars_of(p);
    begins(s, p.as_slice())
}

/// Whether `s` ends with the words `p`.
pub fn ends_in(s: &[char], p: &str) -> (r: bool)
    ensures
        r == ends_with(s@, p@),
{
    let p = chars_of(p);
    ends(s, p.as_slice())
}

/// `s` without the words `p` at its front, where they stand there.
pub fn after_words(s: &[char], p: &str) -> (r: Option<Vec<char>>)
    ensures
        content(r) == without_prefix(s@, p@),
{
    let p = chars_of(p);
    strip_prefix(s, p.as_slice())
}

/// `s` without the words `p` at its end, where they stand there.
pub fn before_words(s: &[char], p: &str) -> (r: Option<Vec<char>>)
    ensures
        content(r) == without_suffix(s@, p@),
{
    let p = chars_of(p);
    strip_suffix(s, p.as_slice())
}

/// What stands behind the words `p` at the front of `s`, or nothing.
pub open spec fn rest(s: Seq<char>, p: Seq<char>) -> Seq<char> {
    match without_prefix(s, p) {
        Some(t) => t,
        None => Seq::empty(),
    }
}

/// What stands behind the words `p` at the front of `s`, or nothing.
pub fn rest_of(s: &[char], p: &str) -> (r: Vec<char>)
    ensures
        r@ == rest(s@, p@),
{
    match after_words(s, p) {
        Some(t) => t,
        None => Vec::new(),
    }
}

/// Whether the character `c` stands in `s`.
pub fn has_char(s: &[char], c: char) -> (r: bool)
    ensures
        r == s@.contains(c),
{
    let mut i: usize = 0;
    while i < s.len()
        invariant
            i <= s@.len(),
            forall|k: int| 0 <= k < i ==> s@[k] != c,
        decreases s@.len() - i,
    {
        if s[i] == c {
            assert(s@[i as int] == c);
            return true;
        }
        i += 1;
    }
    false
}

/// A copy of `s`.
pub fn copy(s: &[char]) -> (r: Vec<char>)
    ensures
        r@ == s@,
{
    let r = cut(s, 0, s.len());
    assert(r@ =~= s@);
    r
}

/// The white space of Unicode: the code points with the property White_Space.
pub open spec fn is_space(c: char) -> bool {
    let n = c as u32;
    ||| 0x9 <= n <= 0xd
    ||| n == 0x20
    ||| n == 0x85
    ||| n == 0xa0
    ||| n == 0x1680
    ||| 0x2000 <= n <= 0x200a
    ||| n == 0x2028
    ||| n == 0x2029
    ||| n == 0x202f
    ||| n == 0x205f
    ||| n == 0x3000
}

/// Whether `c` is white space.
pub fn space(c: char) -> (r: bool)
    ensures
        r == is_space(c),
{
    let n: u32 = c as u32;
    (0x9 <= n && n <= 0xd) || n == 0x20 || n == 0x85 || n == 0xa0 || n == 0x1680 || (0x2000 <= n
        && n <= 0x200a) || n == 0x2028 || n == 0x2029 || n == 0x202f || n == 0x205f || n == 0x3000
}

/// The decimal digits `0` to `9`.
pub open spec fn is_digit(c: char) -> bool {
    0x30 <= c as u32 <= 0x39
}

/// Whether `c` is a decimal digit.
pub fn digit(c: char) -> (r: bool)
    ensures
        r == is_digit(c),
{
    let n: u32 = c as u32;
    0x30 <= n && n <= 0x39
}

/// The characters at which a text is split.
#[derive(Clone, Copy)]
pub enum Sep {
    /// One character.
    At(char),
    /// Either of two characters.
    Either(char, char),
    /// Any white space.
    Space,
    /// Anything but a decimal digit.
    NotDigit,
}

impl Sep {
    /// Whether `c` separates.
    pub open spec fn splits(self, c: char) -> bool {
        match self {
            Sep::At(a) => c == a,
            Sep::Either(a, b) => c == a || c == b,
            Sep::Space => is_space(c),
            Sep::NotDigit => !is_digit(c),
        }
    }

    /// Whether `c` separates.
    pub fn hits(&self, c: char) -> (r: bool)
        ensures
            r == self.splits(c),
    {
        match *self {
            Sep::At(a) => c == a,
            Sep::Either(a, b) => c == a || c == b,
            Sep::Space => space(c),
            Sep::NotDigit => !digit(c),
        }
    }
}

/// The pieces of `s` between its separators. Every separator ends one piece and
/// starts the next, so there is one piece more than there are separators.
pub open spec fn split(s: Seq<char>, sep: Sep) -> Seq<Seq<char>>
    decreases s.len(),
{
    if s.len() == 0 {
        seq![Seq::<char>::empty()]
    } else {
        let before = split(s.drop_last(), sep);
        if sep.splits(s.last()) {
            before.push(Seq::<char>::empty())
        } else {
            before.update(before.len() - 1, before.last().push(s.last()))
        }
    }
}

/// A text has at least one piece.
pub proof fn split_has_a_piece(s: Seq<char>, sep: Sep)
    ensures
        split(s, sep).len() >= 1,
    decreases s.len(),
{
    if s.len() > 0 {
        split_has_a_piece(s.drop_last(), sep);
    }
}

/// The texts that a list of character lists stands for.
pub open spec fn texts(v: Seq<Vec<char>>) -> Seq<Seq<char>> {
    v.map_values(|x: Vec<char>| x@)
}

/// The texts that a list of strings stands for.
pub open spec fn strings(v: Seq<String>) -> Seq<Seq<char>> {
    v.map_values(|x: String| x@)
}

/// The pieces of `s` between its separators.
pub fn pieces(s: &[char], sep: Sep) -> (r: Vec<Vec<char>>)
    ensures
        texts(r@) == split(s@, sep),
        r@.len() >= 1,
{
    let mut done: Vec<Vec<char>> = Vec::new();
    let mut current: Vec<char> = Vec::new();
    let mut i: usize = 0;
    assert(s@.take(0) =~= Seq::<char>::empty());
    assert(texts(done@).push(current@) =~= split(s@.take(0), sep));
    while i < s.len()
        invariant
            i <= s@.len(),
            texts(done@).push(current@) == split(s@.take(i as int), sep),
        decreases s@.len() - i,
    {
        let ghost before = split(s@.take(i as int), sep);
        let ghost ended = current@;
        let c = s[i];
        assert(s@.take(i + 1).drop_last() =~= s@.take(i as int));
        if sep.hits(c) {
            done.push(current);
            current = Vec::new();
            assert(texts(done@) =~= before);
            assert(texts(done@).push(current@) =~= before.push(Seq::<char>::empty()));
        } else {
            current.push(c);
            assert(texts(done@).push(current@) =~= before.update(before.len() - 1, ended.push(c)));
        }
        i += 1;
    }
    assert(s@.take(s@.len() as int) =~= s@);
    let ghost shown = texts(done@).push(current@);
    done.push(current);
    assert(texts(done@) =~= shown);
    done
}

/// A line without the carriage return that belongs to its line ending.
pub open spec fn without_return(line: Seq<char>) -> Seq<char> {
    if line.len() > 0 && line.last() == '\r' {
        line.drop_last()
    } else {
        line
    }
}

/// The lines of `s`: what a line feed ends, without the line feed and without a
/// carriage return in front of it, and what stands behind the last line feed,
/// where something does.
pub open spec fn lines(s: Seq<char>) -> Seq<Seq<char>> {
    let parts = split(s, Sep::At('\n'));
    let ended = parts.drop_last().map_values(|p: Seq<char>| without_return(p));
    if parts.last().len() == 0 {
        ended
    } else {
        ended.push(parts.last())
    }
}

/// The lines of `s`.
pub fn lines_of(s: &[char]) -> (r: Vec<Vec<char>>)
    ensures
        texts(r@) == lines(s@),
{
    let mut parts = pieces(s, Sep::At('\n'));
    let ghost all = texts(parts@);
    let n: usize = parts.len();
    let mut r: Vec<Vec<char>> = Vec::new();
    let mut i: usize = 0;
    let ghost ended = all.drop_last().map_values(|p: Seq<char>| without_return(p));
    while i + 1 < n
        invariant
            n == parts@.len(),
            n >= 1,
            i <= n - 1,
            texts(parts@) == all,
            ended == all.drop_last().map_values(|p: Seq<char>| without_return(p)),
            texts(r@) == ended.take(i as int),
        decreases n - i,
    {
        let part = &parts[i];
        assert(all[i as int] == part@);
        let m: usize = part.len();
        let ghost shown = texts(r@);
        if m > 0 && part[m - 1] == '\r' {
            r.push(cut(part.as_slice(), 0, m - 1));
        } else {
            r.push(cut(part.as_slice(), 0, m));
            assert(part@.subrange(0, m as int) =~= part@);
        }
        assert(texts(r@) =~= shown.push(ended[i as int]));
        i += 1;
    }
    assert(ended.take(n - 1) =~= ended);
    assert(all[n - 1] == parts@[n - 1]@);
    let last = parts.pop().unwrap();
    if last.len() > 0 {
        let ghost shown = texts(r@);
        r.push(last);
        assert(texts(r@) =~= shown.push(last@));
    }
    r
}

/// `s` without the white space at its front.
pub open spec fn trim_start(s: Seq<char>) -> Seq<char>
    decreases s.len(),
{
    if s.len() > 0 && is_space(s.first()) {
        trim_start(s.drop_first())
    } else {
        s
    }
}

/// `s` without the white space at its end.
pub open spec fn trim_end(s: Seq<char>) -> Seq<char>
    decreases s.len(),
{
    if s.len() > 0 && is_space(s.last()) {
        trim_end(s.drop_last())
    } else {
        s
    }
}

/// `s` without the white space around it.
pub open spec fn trim(s: Seq<char>) -> Seq<char> {
    trim_end(trim_start(s))
}

/// `s` without the white space around it.
pub fn trimmed(s: &[char]) -> (r: Vec<char>)
    ensures
        r@ == trim(s@),
{
    let mut i: usize = 0;
    let n: usize = s.len();
    assert(s@.skip(0) =~= s@);
    while i < n && space(s[i])
        invariant
            n == s@.len(),
            i <= n,
            trim_start(s@.skip(i as int)) == trim_start(s@),
        decreases n - i,
    {
        assert(s@.skip(i as int).drop_first() =~= s@.skip(i + 1));
        i += 1;
    }
    let ghost rest = s@.skip(i as int);
    assert(rest == trim_start(s@));
    let mut j: usize = n;
    assert(s@.subrange(i as int, n as int) =~= rest);
    while j > i && space(s[j - 1])
        invariant
            n == s@.len(),
            i <= j <= n,
            trim_end(s@.subrange(i as int, j as int)) == trim_end(rest),
        decreases j,
    {
        assert(s@.subrange(i as int, j as int).drop_last() =~= s@.subrange(i as int, j - 1));
        j -= 1;
    }
    cut(s, i, j)
}

/// The words of `s`: what stands between its white space.
pub open spec fn words(s: Seq<char>) -> Seq<Seq<char>> {
    split(s, Sep::Space).filter(|w: Seq<char>| w.len() > 0)
}

/// The words of `s`.
pub fn words_of(s: &[char]) -> (r: Vec<Vec<char>>)
    ensures
        texts(r@) == words(s@),
{
    let parts = pieces(s, Sep::Space);
    let ghost all = texts(parts@);
    let ghost long = |w: Seq<char>| w.len() > 0;
    let mut r: Vec<Vec<char>> = Vec::new();
    let mut i: usize = 0;
    assert(all.take(0).filter(long) =~= Seq::<Seq<char>>::empty()) by {
        reveal(Seq::filter);
    }
    while i < parts.len()
        invariant
            i <= parts@.len(),
            all == texts(parts@),
            texts(r@) == all.take(i as int).filter(long),
            long == (|w: Seq<char>| w.len() > 0),
        decreases parts@.len() - i,
    {
        let part = &parts[i];
        assert(all[i as int] == part@);
        assert(all.take(i + 1) =~= all.take(i as int).push(part@));
        let ghost shown = texts(r@);
        proof {
            all.take(i as int).lemma_filter_push(part@, long);
        }
        if part.len() > 0 {
            let word = cut(part.as_slice(), 0, part.len());
            assert(word@ =~= part@);
            r.push(word);
            assert(texts(r@) =~= shown.push(part@));
        }
        i += 1;
    }
    assert(all.take(all.len() as int) =~= all);
    r
}

/// The texts of `parts`, one behind the other, with `sep` between any two.
pub open spec fn join(parts: Seq<Seq<char>>, sep: Seq<char>) -> Seq<char>
    decreases parts.len(),
{
    if parts.len() == 0 {
        Seq::<char>::empty()
    } else if parts.len() == 1 {
        parts[0]
    } else {
        join(parts.drop_last(), sep) + sep + parts.last()
    }
}

/// One more character at the end of a text.
proof fn split_push(s: Seq<char>, c: char, sep: Sep)
    ensures
        split(s, sep).len() >= 1,
        split(s.push(c), sep) == if sep.splits(c) {
            split(s, sep).push(Seq::<char>::empty())
        } else {
            split(s, sep).update(split(s, sep).len() - 1, split(s, sep).last().push(c))
        },
{
    split_has_a_piece(s, sep);
    assert(s.push(c).drop_last() =~= s);
}

/// Joining what splitting at a character gave, with that character, gives the text
/// back.
pub proof fn join_undoes_split(s: Seq<char>, c: char)
    ensures
        join(split(s, Sep::At(c)), seq![c]) == s,
    decreases s.len(),
{
    let sep = Sep::At(c);
    if s.len() > 0 {
        let head = s.drop_last();
        join_undoes_split(head, c);
        split_push(head, s.last(), sep);
        assert(head.push(s.last()) =~= s);
        let before = split(head, sep);
        let after = split(s, sep);
        if s.last() == c {
            assert(after.drop_last() =~= before);
            assert(join(after, seq![c]) =~= head.push(c));
        } else {
            assert(after.drop_last() =~= before.drop_last());
            if before.len() == 1 {
                assert(join(after, seq![c]) =~= head.push(s.last()));
            } else {
                let front = join(before.drop_last(), seq![c]) + seq![c];
                assert(join(before, seq![c]) == front + before.last());
                assert(join(after, seq![c]) =~= front + before.last().push(s.last()));
                assert(join(after, seq![c]) =~= head.push(s.last()));
            }
        }
    }
}

/// A text, a separator and a text without separators split into the pieces of the
/// first, and the last as one piece.
pub proof fn split_appended(a: Seq<char>, c: char, b: Seq<char>)
    requires
        !b.contains(c),
    ensures
        split(a.push(c) + b, Sep::At(c)) == split(a, Sep::At(c)).push(b),
    decreases b.len(),
{
    split_push(a, c, Sep::At(c));
    if b.len() == 0 {
        assert(a.push(c) + b =~= a.push(c));
        assert(b =~= Seq::<char>::empty());
    } else {
        let head = b.drop_last();
        assert(b.contains(b.last()));
        assert forall|x: char| head.contains(x) implies b.contains(x) by {
            let i = choose|i: int| 0 <= i < head.len() && head[i] == x;
            assert(b[i] == x);
        }
        split_appended(a, c, head);
        split_push(a.push(c) + head, b.last(), Sep::At(c));
        assert((a.push(c) + head).push(b.last()) =~= a.push(c) + b);
        let before = split(a, Sep::At(c)).push(head);
        assert(head.push(b.last()) =~= b);
        assert(before.update(before.len() - 1, head.push(b.last())) =~= split(a, Sep::At(c)).push(
            b,
        ));
    }
}

/// A text without separators is one piece.
proof fn split_single(b: Seq<char>, c: char)
    requires
        !b.contains(c),
    ensures
        split(b, Sep::At(c)) == seq![b],
    decreases b.len(),
{
    if b.len() > 0 {
        let head = b.drop_last();
        assert(b.contains(b.last()));
        assert forall|x: char| head.contains(x) implies b.contains(x) by {
            let i = choose|i: int| 0 <= i < head.len() && head[i] == x;
            assert(b[i] == x);
        }
        split_single(head, c);
        split_push(head, b.last(), Sep::At(c));
        assert(head.push(b.last()) =~= b);
        assert(seq![head].update(0, b) =~= seq![b]);
    } else {
        assert(seq![b] =~= seq![Seq::<char>::empty()]);
    }
}

/// Splitting what joining with a character gave gives the pieces back, where none
/// of them holds that character.
pub proof fn split_undoes_join(parts: Seq<Seq<char>>, c: char)
    requires
        parts.len() > 0,
        forall|i: int| 0 <= i < parts.len() ==> !(#[trigger] parts[i]).contains(c),
    ensures
        split(join(parts, seq![c]), Sep::At(c)) == parts,
    decreases parts.len(),
{
    if parts.len() == 1 {
        split_single(parts[0], c);
        assert(seq![parts[0]] =~= parts);
    } else {
        let head = parts.drop_last();
        assert forall|i: int| 0 <= i < head.len() implies !(#[trigger] head[i]).contains(c) by {
            assert(head[i] == parts[i]);
        }
        split_undoes_join(head, c);
        split_appended(join(head, seq![c]), c, parts.last());
        assert(join(parts, seq![c]) =~= join(head, seq![c]).push(c) + parts.last());
        assert(head.push(parts.last()) =~= parts);
    }
}

/// No piece between separators holds one.
pub proof fn pieces_hold_no_separator(s: Seq<char>, c: char)
    ensures
        forall|i: int|
            0 <= i < split(s, Sep::At(c)).len() ==> !(#[trigger] split(s, Sep::At(c))[i]).contains(c),
    decreases s.len(),
{
    if s.len() > 0 {
        let head = s.drop_last();
        pieces_hold_no_separator(head, c);
        split_push(head, s.last(), Sep::At(c));
        assert(head.push(s.last()) =~= s);
    }
}

/// No line holds a line feed.
pub proof fn lines_hold_no_feed(s: Seq<char>)
    ensures
        forall|i: int| 0 <= i < lines(s).len() ==> !(#[trigger] lines(s)[i]).contains('\n'),
{
    let parts = split(s, Sep::At('\n'));
    split_has_a_piece(s, Sep::At('\n'));
    pieces_hold_no_separator(s, '\n');
    assert forall|i: int| 0 <= i < lines(s).len() implies !(#[trigger] lines(s)[i]).contains(
        '\n',
    ) by {
        let line = lines(s)[i];
        assert(!parts[i].contains('\n'));
        if line.contains('\n') {
            let j = choose|j: int| 0 <= j < line.len() && line[j] == '\n';
            assert(parts[i][j] == '\n');
        }
    }
}

/// The texts of `parts[from..to]`, with `sep` between any two.
pub fn joined(parts: &Vec<Vec<char>>, from: usize, to: usize, sep: &[char]) -> (r: Vec<char>)
    requires
        from <= to <= parts@.len(),
    ensures
        r@ == join(texts(parts@).subrange(from as int, to as int), sep@),
{
    let ghost all = texts(parts@);
    let mut r: Vec<char> = Vec::new();
    let mut i: usize = from;
    while i < to
        invariant
            from <= i <= to <= parts@.len(),
            all == texts(parts@),
            r@ == join(all.subrange(from as int, i as int), sep@),
        decreases to - i,
    {
        let ghost head = all.subrange(from as int, i as int);
        let ghost next = all.subrange(from as int, i + 1);
        assert(next.drop_last() =~= head);
        assert(next.last() == parts@[i as int]@);
        if i > from {
            extend(&mut r, sep);
            extend(&mut r, parts[i].as_slice());
        } else {
            extend(&mut r, parts[i].as_slice());
            assert(r@ =~= parts@[i as int]@);
        }
        i += 1;
    }
    r
}

/// `s` from position `i` on, with every occurrence of `p` replaced by `by`.
/// Occurrences are taken from the left and do not overlap.
pub open spec fn replace_from(s: Seq<char>, p: Seq<char>, by: Seq<char>, i: int) -> Seq<char>
    recommends
        p.len() > 0,
    decreases s.len() - i,
{
    if i < 0 || i >= s.len() || p.len() == 0 {
        Seq::<char>::empty()
    } else if occurs_at(s, p, i) {
        by + replace_from(s, p, by, i + p.len())
    } else {
        seq![s[i]] + replace_from(s, p, by, i + 1)
    }
}

/// `s` with every occurrence of `p` replaced by `by`.
pub open spec fn replace(s: Seq<char>, p: Seq<char>, by: Seq<char>) -> Seq<char> {
    replace_from(s, p, by, 0)
}

/// `s` with every occurrence of `p` replaced by `by`.
pub fn replaced(s: &[char], p: &[char], by: &[char]) -> (r: Vec<char>)
    requires
        p@.len() > 0,
    ensures
        r@ == replace(s@, p@, by@),
{
    let mut r: Vec<char> = Vec::new();
    let mut i: usize = 0;
    while i < s.len()
        invariant
            p@.len() > 0,
            i <= s@.len(),
            r@ + replace_from(s@, p@, by@, i as int) == replace(s@, p@, by@),
        decreases s@.len() - i,
    {
        let ghost written = r@;
        if matches_at(s, p, i) {
            extend(&mut r, by);
            assert(r@ + replace_from(s@, p@, by@, i + p@.len()) =~= written + (by@ + replace_from(
                s@,
                p@,
                by@,
                i + p@.len(),
            )));
            i += p.len();
        } else {
            r.push(s[i]);
            assert(r@ + replace_from(s@, p@, by@, i + 1) =~= written + (seq![s@[i as int]]
                + replace_from(s@, p@, by@, i + 1)));
            i += 1;
        }
    }
    assert(r@ =~= r@ + replace_from(s@, p@, by@, i as int));
    r
}

/// A character of the ASCII range in lower case.
pub open spec fn ascii_lower(c: char) -> char {
    if 0x41 <= c as u32 <= 0x5a {
        (c as u32 + 0x20) as char
    } else {
        c
    }
}

/// A character of the ASCII range in upper case.
pub open spec fn ascii_upper(c: char) -> char {
    if 0x61 <= c as u32 <= 0x7a {
        (c as u32 - 0x20) as char
    } else {
        c
    }
}

/// Whether all of `s` lies in the ASCII range.
pub open spec fn all_ascii(s: Seq<char>) -> bool {
    forall|i: int| 0 <= i < s.len() ==> (s[i] as u32) < 0x80
}

/// What `str::to_lowercase` returns for a text.
pub uninterp spec fn lowercase(s: Seq<char>) -> Seq<char>;

/// What `char::to_uppercase` yields for a character.
pub uninterp spec fn uppercase(c: char) -> Seq<char>;

/// `str::to_lowercase`: the text in lower case as Unicode defines it. Within the
/// ASCII range only the letters `A` to `Z` change, each to its small letter.
#[verifier::external_body]
pub(crate) fn to_lowercase(s: &str) -> (r: String)
    ensures
        r@ == lowercase(s@),
        all_ascii(s@) ==> r@ == s@.map_values(|c: char| ascii_lower(c)),
{
    s.to_lowercase()
}

/// `char::to_uppercase`: the character in upper case as Unicode defines it, which
/// may take several characters. Within the ASCII range only the letters `a` to
/// `z` change, each to its capital.
#[verifier::external_body]
fn to_uppercase(c: char) -> (r: String)
    ensures
        r@ == uppercase(c),
        (c as u32) < 0x80 ==> r@ == seq![ascii_upper(c)],
{
    c.to_uppercase().to_string()
}

/// The characters of `s` in lower case.
pub fn lower(s: &[char]) -> (r: Vec<char>)
    ensures
        r@ == lowercase(s@),
        all_ascii(s@) ==> r@ == s@.map_values(|c: char| ascii_lower(c)),
{
    let t = text_of(s);
    let l = to_lowercase(t.as_str());
    chars_of(l.as_str())
}

/// The character in upper case.
pub fn upper(c: char) -> (r: Vec<char>)
    ensures
        r@ == uppercase(c),
        (c as u32) < 0x80 ==> r@ == seq![ascii_upper(c)],
{
    let u = to_uppercase(c);
    chars_of(u.as_str())
}

/// The digit of value `d`.
pub open spec fn digit_char(d: int) -> char {
    (0x30 + d) as char
}

/// The decimal notation of `n`.
pub open spec fn decimal(n: nat) -> Seq<char>
    decreases n,
{
    if n < 10 {
        seq![digit_char(n as int)]
    } else {
        decimal(n / 10).push(digit_char((n % 10) as int))
    }
}

/// The decimal notation of `n`.
pub fn decimal_of(n: u64) -> (r: Vec<char>)
    ensures
        r@ == decimal(n as nat),
    decreases n,
{
    let d: u8 = (n % 10) as u8;
    let c: char = (0x30 + d) as char;
    assert(c == digit_char(n as int % 10));
    let mut r: Vec<char> = if n < 10 {
        Vec::new()
    } else {
        decimal_of(n / 10)
    };
    r.push(c);
    assert(n < 10 ==> r@ =~= seq![digit_char(n as int)]);
    r
}

/// Whether all of `s` are decimal digits.
pub open spec fn all_digits(s: Seq<char>) -> bool {
    forall|i: int| 0 <= i < s.len() ==> is_digit(#[trigger] s[i])
}

/// The number that a row of decimal digits stands for.
pub open spec fn digits_value(s: Seq<char>) -> nat
    decreases s.len(),
{
    if s.len() == 0 {
        0
    } else {
        10 * digits_value(s.drop_last()) + ((s.last() as u32 - 0x30) as nat)
    }
}

/// The number that a row of digits stands for, where there is at least one digit
/// and nothing else and the number is at most `limit`.
pub open spec fn parse_digits(s: Seq<char>, limit: nat) -> Option<nat> {
    if s.len() > 0 && all_digits(s) && digits_value(s) <= limit {
        Some(digits_value(s))
    } else {
        None
    }
}

/// The signed number that `s` stands for: an optional sign, then digits.
pub open spec fn parse_signed(s: Seq<char>) -> Option<int> {
    if s.len() > 0 && s[0] == '-' {
        match parse_digits(s.skip(1), 0x8000_0000) {
            Some(n) => Some(-(n as int)),
            None => None,
        }
    } else {
        let digits = if s.len() > 0 && s[0] == '+' {
            s.skip(1)
        } else {
            s
        };
        match parse_digits(digits, 0x7fff_ffff) {
            Some(n) => Some(n as int),
            None => None,
        }
    }
}

/// More digits never stand for a smaller number.
proof fn digits_value_grows(s: Seq<char>, i: int)
    requires
        0 <= i <= s.len(),
        all_digits(s),
    ensures
        digits_value(s.take(i)) <= digits_value(s),
    decreases s.len() - i,
{
    if i == s.len() {
        assert(s.take(i) =~= s);
    } else {
        assert(s.take(i + 1).drop_last() =~= s.take(i));
        assert(is_digit(s[i]));
        digits_value_grows(s, i + 1);
    }
}

/// The number that the digits `s[from..]` stand for, where it is at most `limit`.
pub fn number_from(s: &[char], from: usize, limit: u32) -> (r: Option<u32>)
    requires
        from <= s@.len(),
    ensures
        match r {
            Some(n) => parse_digits(s@.skip(from as int), limit as nat) == Some(n as nat),
            None => parse_digits(s@.skip(from as int), limit as nat) is None,
        },
{
    let ghost t = s@.skip(from as int);
    if from == s.len() {
        return None;
    }
    let mut value: u64 = 0;
    let mut i: usize = from;
    assert(t.take(0) =~= Seq::<char>::empty());
    while i < s.len()
        invariant
            from <= i <= s@.len(),
            t == s@.skip(from as int),
            t.len() == s@.len() - from,
            forall|k: int| 0 <= k < i - from ==> is_digit(#[trigger] t[k]),
            value == digits_value(t.take(i - from)),
            value <= limit,
        decreases s@.len() - i,
    {
        let c = s[i];
        assert(t[i - from] == c);
        if !digit(c) {
            return None;
        }
        assert(t.take(i + 1 - from).drop_last() =~= t.take(i - from));
        value = 10 * value + (c as u32 - 0x30) as u64;
        if value > limit as u64 {
            proof {
                if all_digits(t) {
                    digits_value_grows(t, i + 1 - from);
                }
            }
            return None;
        }
        i += 1;
    }
    assert(t.take(t.len() as int) =~= t);
    Some(value as u32)
}

/// The signed number that `s` stands for, where it stands for one that fits.
pub fn signed_number(s: &[char]) -> (r: Option<i32>)
    ensures
        match r {
            Some(n) => parse_signed(s@) == Some(n as int),
            None => parse_signed(s@) is None,
        },
{
    assert(s@.skip(0) =~= s@);
    if s.len() > 0 && s[0] == '-' {
        match number_from(s, 1, 0x8000_0000) {
            Some(n) => Some((0 - n as i64) as i32),
            None => None,
        }
    } else {
        let from: usize = if s.len() > 0 && s[0] == '+' {
            1
        } else {
            0
        };
        match number_from(s, from, 0x7fff_ffff) {
            Some(n) => Some(n as i32),
            None => None,
        }
    }
}

/// The ending of `s` that takes exactly `n` bytes in UTF-8, where one does.
pub open spec fn last_bytes(s: Seq<char>, n: nat) -> Option<Seq<char>>
    decreases s.len(),
{
    if encode_utf8(s).len() == n {
        Some(s)
    } else if s.len() == 0 {
        None
    } else {
        last_bytes(s.drop_first(), n)
    }
}

/// How many bytes a character takes in UTF-8.
fn width(c: char) -> (r: usize)
    ensures
        r == encode_scalar(c as u32).len(),
        1 <= r <= 4,
{
    proof {
        char_is_scalar(c);
    }
    let n: u32 = c as u32;
    if n < 0x80 {
        1
    } else if n < 0x800 {
        2
    } else if n < 0x10000 {
        3
    } else {
        4
    }
}

/// A text does not take fewer bytes than an ending of it.
proof fn bytes_shrink(s: Seq<char>, n: nat)
    requires
        encode_utf8(s).len() < n,
    ensures
        last_bytes(s, n) is None,
    decreases s.len(),
{
    if s.len() > 0 {
        bytes_shrink(s.drop_first(), n);
    }
}

/// The ending of `s` that takes exactly `n` bytes in UTF-8, where one does.
pub fn ending(s: &[char], n: usize) -> (r: Option<Vec<char>>)
    ensures
        content(r) == last_bytes(s@, n as nat),
{
    let mut left: usize = byte_len(s);
    let mut i: usize = 0;
    assert(s@.skip(0) =~= s@);
    while left > n
        invariant
            i <= s@.len(),
            left == encode_utf8(s@.skip(i as int)).len(),
            last_bytes(s@, n as nat) == last_bytes(s@.skip(i as int), n as nat),
        decreases left,
    {
        assert(s@.skip(i as int).len() > 0) by {
            if s@.skip(i as int).len() == 0 {
                assert(encode_utf8(s@.skip(i as int)).len() == 0);
            }
        }
        assert(s@.skip(i as int).drop_first() =~= s@.skip(i + 1));
        assert(s@.skip(i as int)[0] == s@[i as int]);
        left -= width(s[i]);
        i += 1;
    }
    if left == n {
        let r = cut(s, i, s.len());
        assert(r@ =~= s@.skip(i as int));
        Some(r)
    } else {
        proof {
            bytes_shrink(s@.skip(i as int), n as nat);
        }
        None
    }
}

/// A text has another exactly where it is made of something, the other and something.
pub proof fn has_means_made_of(s: Seq<char>, p: Seq<char>)
    ensures
        has(s, p) <==> exists|a: Seq<char>, b: Seq<char>| s == #[trigger] (a + p + b),
{
    if has(s, p) {
        let i = choose|i: int| occurs_at(s, p, i);
        let a = s.take(i);
        let b = s.skip(i + p.len());
        assert(s.subrange(i, i + p.len()) == p);
        assert(s =~= a + p + b);
    }
    if exists|a: Seq<char>, b: Seq<char>| s == #[trigger] (a + p + b) {
        let (a, b) = choose|a: Seq<char>, b: Seq<char>| s == #[trigger] (a + p + b);
        let i = a.len() as int;
        assert(s.subrange(i, i + p.len()) =~= p);
        assert(occurs_at(s, p, i));
    }
}

/// A text starts with another exactly where it is that and something behind it, and what
/// is left without it is what stands behind.
pub proof fn start_means_made_of(s: Seq<char>, p: Seq<char>)
    ensures
        starts_with(s, p) <==> exists|b: Seq<char>| s == #[trigger] (p + b),
        forall|b: Seq<char>| s == #[trigger] (p + b) ==> rest(s, p) == b && without_prefix(s, p)
            == Some(b),
        !starts_with(s, p) ==> without_prefix(s, p) is None,
{
    if starts_with(s, p) {
        assert(s.subrange(0, p.len() as int) == p);
        assert(s =~= p + s.skip(p.len() as int));
    }
    assert forall|b: Seq<char>| s == #[trigger] (p + b) implies starts_with(s, p) && rest(s, p) == b
        && without_prefix(s, p) == Some(b) by {
        assert(s.subrange(0, p.len() as int) =~= p);
        assert(s.skip(p.len() as int) =~= b);
    }
}

/// A text ends with another exactly where it is something and that behind it, and what is
/// left without it is what stands in front.
pub proof fn end_means_made_of(s: Seq<char>, p: Seq<char>)
    ensures
        ends_with(s, p) <==> exists|a: Seq<char>| s == #[trigger] (a + p),
        forall|a: Seq<char>| s == #[trigger] (a + p) ==> without_suffix(s, p) == Some(a),
        !ends_with(s, p) ==> without_suffix(s, p) is None,
{
    let n = s.len() - p.len();
    if ends_with(s, p) {
        assert(s.subrange(n, n + p.len()) == p);
        assert(s =~= s.take(n) + p);
    }
    assert forall|a: Seq<char>| s == #[trigger] (a + p) implies ends_with(s, p) && without_suffix(
        s,
        p,
    ) == Some(a) by {
        assert(s.subrange(n, n + p.len()) =~= p);
        assert(s.take(n) =~= a);
    }
}

/// A space as far as ASCII goes: the control characters from tabulator to carriage return,
/// and the blank. A digit is one of the ten.
pub proof fn ascii_spaces_and_digits(c: char)
    ensures
        (c as u32) < 0x80 ==> (is_space(c) <==> c == ' ' || c == '\t' || c == '\n' || c == '\r'
            || c as u32 == 0xb || c as u32 == 0xc),
        is_digit(c) <==> (c == '0' || c == '1' || c == '2' || c == '3' || c == '4' || c == '5' || c
            == '6' || c == '7' || c == '8' || c == '9'),
{
}

/// Trimming takes away what is space at both ends, and nothing else.
pub proof fn trimming_takes_the_ends(s: Seq<char>)
    ensures
        exists|a: Seq<char>, b: Seq<char>|
            s == #[trigger] (a + trim(s) + b) && (forall|i: int|
                0 <= i < a.len() ==> is_space(#[trigger] a[i])) && (forall|i: int|
                0 <= i < b.len() ==> is_space(#[trigger] b[i])),
        trim(s).len() > 0 ==> !is_space(trim(s).first()) && !is_space(trim(s).last()),
{
    let t = trim_start(s);
    front_is_space(s);
    back_is_space(t);
    let a = choose|a: Seq<char>|
        s == #[trigger] (a + t) && forall|i: int| 0 <= i < a.len() ==> is_space(#[trigger] a[i]);
    let b = choose|b: Seq<char>|
        t == #[trigger] (trim(s) + b) && forall|i: int|
            0 <= i < b.len() ==> is_space(#[trigger] b[i]);
    assert(s =~= a + trim(s) + b);
    if trim(s).len() > 0 {
        assert(trim(s).first() == t.first());
    }
}

/// What is trimmed at the front is space, and what is left does not start with one.
proof fn front_is_space(s: Seq<char>)
    ensures
        exists|a: Seq<char>|
            s == #[trigger] (a + trim_start(s)) && forall|i: int|
                0 <= i < a.len() ==> is_space(#[trigger] a[i]),
        trim_start(s).len() > 0 ==> !is_space(trim_start(s).first()),
    decreases s.len(),
{
    if s.len() > 0 && is_space(s.first()) {
        let tail = s.drop_first();
        front_is_space(tail);
        let a = choose|a: Seq<char>|
            tail == #[trigger] (a + trim_start(tail)) && forall|i: int|
                0 <= i < a.len() ==> is_space(#[trigger] a[i]);
        let all = seq![s.first()] + a;
        assert(s =~= all + trim_start(s));
        assert forall|i: int| 0 <= i < all.len() implies is_space(#[trigger] all[i]) by {
            if i > 0 {
                assert(all[i] == a[i - 1]);
            }
        }
    } else {
        assert(s =~= Seq::<char>::empty() + trim_start(s));
    }
}

/// What is trimmed at the end is space, and what is left does not end with one.
proof fn back_is_space(s: Seq<char>)
    ensures
        exists|b: Seq<char>|
            s == #[trigger] (trim_end(s) + b) && forall|i: int|
                0 <= i < b.len() ==> is_space(#[trigger] b[i]),
        trim_end(s).len() > 0 ==> !is_space(trim_end(s).last()),
        trim_end(s).len() > 0 ==> trim_end(s).first() == s.first(),
    decreases s.len(),
{
    if s.len() > 0 && is_space(s.last()) {
        let head = s.drop_last();
        back_is_space(head);
        let b = choose|b: Seq<char>|
            head == #[trigger] (trim_end(head) + b) && forall|i: int|
                0 <= i < b.len() ==> is_space(#[trigger] b[i]);
        let all = b.push(s.last());
        assert(s == head.push(s.last()));
        assert((trim_end(head) + b).push(s.last()) =~= trim_end(head) + all);
        assert(s == trim_end(s) + all);
    } else {
        assert(s =~= trim_end(s) + Seq::<char>::empty());
    }
}

/// A text without spaces at its ends is trimmed already, and spaces around it go.
pub proof fn trimming_finds_the_middle(a: Seq<char>, t: Seq<char>, b: Seq<char>)
    requires
        forall|i: int| 0 <= i < a.len() ==> is_space(#[trigger] a[i]),
        forall|i: int| 0 <= i < b.len() ==> is_space(#[trigger] b[i]),
        t.len() > 0 ==> !is_space(t.first()) && !is_space(t.last()),
    ensures
        trim(a + t + b) == t,
    decreases a.len() + b.len(),
{
    let s = a + t + b;
    if a.len() > 0 {
        assert(s.first() == a[0]);
        assert(s.drop_first() =~= a.drop_first() + t + b);
        trimming_finds_the_middle(a.drop_first(), t, b);
    } else if t.len() == 0 {
        if b.len() > 0 {
            assert(s.first() == b[0]);
            assert(s.drop_first() =~= a + t + b.drop_first());
            trimming_finds_the_middle(a, t, b.drop_first());
        } else {
            assert(s =~= t);
        }
    } else {
        assert(s.first() == t.first());
        assert(trim_start(s) == s);
        if b.len() > 0 {
            assert(s.last() == b.last());
            assert(s.drop_last() =~= a + t + b.drop_last());
            assert(s.drop_last().first() == t.first());
            trimming_finds_the_middle(a, t, b.drop_last());
        } else {
            assert(s =~= t);
        }
    }
}

/// A separator ends one piece and starts the next, whatever separates.
pub proof fn split_behind(a: Seq<char>, c: char, b: Seq<char>, sep: Sep)
    requires
        sep.splits(c),
        forall|i: int| 0 <= i < b.len() ==> !sep.splits(#[trigger] b[i]),
    ensures
        split(a.push(c) + b, sep) == split(a, sep).push(b),
    decreases b.len(),
{
    if b.len() == 0 {
        split_push(a, c, sep);
        assert(a.push(c) + b =~= a.push(c));
        assert(b =~= Seq::<char>::empty());
    } else {
        let head = b.drop_last();
        split_behind(a, c, head, sep);
        assert(a.push(c) + b =~= (a.push(c) + head).push(b.last()));
        split_push(a.push(c) + head, b.last(), sep);
        let before = split(a.push(c) + head, sep);
        assert(before.last() == head);
        assert(head.push(b.last()) =~= b);
        assert(split(a.push(c) + b, sep) =~= split(a, sep).push(b));
    }
}

/// A text without separators is one piece, whatever separates.
pub proof fn unsplit(b: Seq<char>, sep: Sep)
    requires
        forall|i: int| 0 <= i < b.len() ==> !sep.splits(#[trigger] b[i]),
    ensures
        split(b, sep) == seq![b],
    decreases b.len(),
{
    if b.len() > 0 {
        unsplit(b.drop_last(), sep);
        assert(b.drop_last().push(b.last()) =~= b);
        assert(split(b, sep) =~= seq![b]);
    } else {
        assert(b =~= Seq::<char>::empty());
    }
}

/// The separators are the characters that they name.
pub proof fn separators_are_named(a: char, b: char, c: char)
    ensures
        Sep::At(a).splits(c) <==> c == a,
        Sep::Either(a, b).splits(c) <==> c == a || c == b,
        Sep::Space.splits(c) <==> is_space(c),
        Sep::NotDigit.splits(c) <==> !is_digit(c),
{
}

/// Lines that are written one below the other are read back, whether or not the last one
/// is ended.
pub proof fn written_lines_are_read(v: Seq<Seq<char>>)
    requires
        v.len() > 0,
        forall|i: int|
            0 <= i < v.len() ==> !(#[trigger] v[i]).contains('\n') && (v[i].len() > 0 ==> v[i].last()
                != '\r'),
    ensures
        lines(join(v, seq!['\n']).push('\n')) == v,
        v.last().len() > 0 ==> lines(join(v, seq!['\n'])) == v,
{
    let s = join(v, seq!['\n']);
    split_undoes_join(v, '\n');
    let none = Seq::<char>::empty();
    split_appended(s, '\n', none);
    assert(s.push('\n') + none =~= s.push('\n'));
    let parts = v.push(none);
    assert(parts.drop_last() =~= v);
    assert(v.map_values(|p: Seq<char>| without_return(p)) =~= v);
    let head = v.drop_last();
    assert(head.map_values(|p: Seq<char>| without_return(p)) =~= head);
    assert(head.push(v.last()) =~= v);
}

/// A carriage return at the end of a line that is ended does not belong to it.
pub proof fn line_endings_do_not_count(line: Seq<char>)
    requires
        !line.contains('\n'),
    ensures
        lines(line.push('\r').push('\n')) == seq![line],
{
    let s = line.push('\r');
    let none = Seq::<char>::empty();
    assert(!s.contains('\n')) by {
        if s.contains('\n') {
            let i = choose|i: int| 0 <= i < s.len() && s[i] == '\n';
            assert(line[i] == '\n');
        }
    }
    split_single(s, '\n');
    split_appended(s, '\n', none);
    assert(s.push('\n') + none =~= s.push('\n'));
    let parts = seq![s].push(none);
    assert(parts.drop_last() =~= seq![s]);
    assert(without_return(s) =~= line);
    assert(seq![s].map_values(|p: Seq<char>| without_return(p)) =~= seq![line]);
}

/// A text of one line is its only line.
pub proof fn one_line(line: Seq<char>)
    requires
        line.len() > 0,
        !line.contains('\n'),
    ensures
        lines(line) == seq![line],
{
    split_single(line, '\n');
    assert(seq![line].drop_last().map_values(|p: Seq<char>| without_return(p)) =~= Seq::empty());
    assert(Seq::<Seq<char>>::empty().push(line) =~= seq![line]);
}

/// Words hold no space and are not empty, and a word more behind a space is one more.
pub proof fn words_are_told_apart(s: Seq<char>, c: char, word: Seq<char>)
    requires
        is_space(c),
        word.len() > 0,
        forall|i: int| 0 <= i < word.len() ==> !is_space(#[trigger] word[i]),
    ensures
        words(word) == seq![word],
        words(s.push(c) + word) == words(s).push(word),
        words(s.push(c)) == words(s),
{
    let full = |w: Seq<char>| w.len() > 0;
    reveal(Seq::filter);
    unsplit(word, Sep::Space);
    assert(seq![word].drop_last() =~= Seq::empty());
    assert(Seq::<Seq<char>>::empty().filter(full) =~= Seq::empty());
    assert(words(word) =~= seq![word]);
    split_behind(s, c, word, Sep::Space);
    let parts = split(s, Sep::Space);
    assert(parts.push(word).drop_last() =~= parts);
    let none = Seq::<char>::empty();
    split_behind(s, c, none, Sep::Space);
    assert(s.push(c) + none =~= s.push(c));
    assert(parts.push(none).drop_last() =~= parts);
}

/// What a text does not hold is not replaced.
pub proof fn nothing_to_replace(s: Seq<char>, p: Seq<char>, by: Seq<char>)
    requires
        p.len() > 0,
        !self::has(s, p),
    ensures
        replace(s, p, by) == s,
{
    unreplaced(s, p, by, 0, s.len() as int);
    assert(replace_from(s, p, by, s.len() as int) =~= Seq::empty());
    assert(s.subrange(0, s.len() as int) =~= s);
}

/// What stands in front of the first occurrence stays.
proof fn unreplaced(s: Seq<char>, p: Seq<char>, by: Seq<char>, i: int, n: int)
    requires
        p.len() > 0,
        0 <= i <= n <= s.len(),
        forall|k: int| i <= k < n ==> !occurs_at(s, p, k),
    ensures
        replace_from(s, p, by, i) == s.subrange(i, n) + replace_from(s, p, by, n),
    decreases n - i,
{
    if i < n {
        assert(!occurs_at(s, p, i));
        unreplaced(s, p, by, i + 1, n);
        assert(seq![s[i]] + s.subrange(i + 1, n) =~= s.subrange(i, n));
        assert(seq![s[i]] + (s.subrange(i + 1, n) + replace_from(s, p, by, n)) =~= s.subrange(i, n)
            + replace_from(s, p, by, n));
    } else {
        assert(s.subrange(i, n) + replace_from(s, p, by, n) =~= replace_from(s, p, by, n));
    }
}

/// The first occurrence is replaced, what stands in front of it stays, and what stands
/// behind it is replaced in turn.
pub proof fn replaced_from_the_front(a: Seq<char>, p: Seq<char>, b: Seq<char>, by: Seq<char>)
    requires
        p.len() > 0,
        find_from(a + p + b, p, 0) == Some(a.len() as int),
    ensures
        replace(a + p + b, p, by) == a + by + replace(b, p, by),
{
    let s = a + p + b;
    let n = a.len() as int;
    find_from_is_first(s, p, 0);
    unreplaced(s, p, by, 0, n);
    assert(s.subrange(0, n) =~= a);
    replace_shifted(a + p, b, p, by, 0);
    assert(replace_from(s, p, by, n) == by + replace_from(s, p, by, n + p.len()));
    assert(a + (by + replace(b, p, by)) =~= a + by + replace(b, p, by));
}

/// Replacing in the rest of a text is replacing in the rest.
proof fn replace_shifted(a: Seq<char>, b: Seq<char>, p: Seq<char>, by: Seq<char>, i: int)
    requires
        p.len() > 0,
        0 <= i,
    ensures
        replace_from(a + b, p, by, a.len() + i) == replace_from(b, p, by, i),
    decreases b.len() - i,
{
    let s = a + b;
    let k = a.len() + i;
    if i < b.len() {
        if k + p.len() <= s.len() {
            assert(s.subrange(k, k + p.len()) =~= b.subrange(i, i + p.len()));
        }
        assert(occurs_at(s, p, k) == occurs_at(b, p, i));
        assert(s[k] == b[i]);
        if occurs_at(b, p, i) {
            replace_shifted(a, b, p, by, i + p.len());
        } else {
            replace_shifted(a, b, p, by, i + 1);
        }
    }
}

/// A number that is written in digits is read back, where it is within the limit.
pub proof fn written_numbers_are_read(n: nat, limit: nat)
    ensures
        decimal(n).len() > 0,
        all_digits(decimal(n)),
        digits_value(decimal(n)) == n,
        parse_digits(decimal(n), limit) == (if n <= limit {
            Some(n)
        } else {
            None
        }),
        n <= 0x7fff_ffff ==> parse_signed(decimal(n)) == Some(n as int),
        n <= 0x8000_0000 ==> parse_signed(seq!['-'] + decimal(n)) == Some(-(n as int)),
    decreases n,
{
    let s = decimal(n);
    if n >= 10 {
        written_numbers_are_read(n / 10, n);
        assert(s.drop_last() =~= decimal(n / 10));
        assert(s.last() == digit_char((n % 10) as int));
        assert forall|i: int| 0 <= i < s.len() implies is_digit(#[trigger] s[i]) by {
            if i < s.len() - 1 {
                assert(s[i] == decimal(n / 10)[i]);
            }
        }
    } else {
        assert(s.drop_last() =~= Seq::<char>::empty());
        assert(digits_value(s.drop_last()) == 0);
        assert(s.last() == digit_char(n as int));
    }
    assert(is_digit(s[0]));
    assert((seq!['-'] + s).skip(1) =~= s);
}

/// What is no row of digits behind an optional sign is no number.
pub proof fn other_texts_are_no_numbers(s: Seq<char>, i: int)
    requires
        0 <= i < s.len(),
        !is_digit(s[i]),
        i > 0 || (s[0] != '-' && s[0] != '+'),
    ensures
        parse_signed(s) is None,
        parse_digits(s, u32::MAX as nat) is None,
{
    if s[0] == '-' || s[0] == '+' {
        assert(s.skip(1)[i - 1] == s[i]);
    }
}

/// The letters of ASCII have their pairs.
pub proof fn ascii_letters_have_pairs(c: char)
    ensures
        ascii_lower('A') == 'a' && ascii_lower('Z') == 'z' && ascii_upper('a') == 'A' && ascii_upper(
            'z',
        ) == 'Z',
        0x41 <= c as u32 <= 0x5a ==> ascii_lower(c) as u32 == c as u32 + 0x20 && ascii_upper(
            ascii_lower(c),
        ) == c,
        !(0x41 <= c as u32 <= 0x5a) ==> ascii_lower(c) == c,
        !(0x61 <= c as u32 <= 0x7a) ==> ascii_upper(c) == c,
{
}

/// The last bytes of a text are those of its end.
pub proof fn last_bytes_are_at_the_end(s: Seq<char>, n: nat)
    ensures
        match last_bytes(s, n) {
            Some(t) => encode_utf8(t).len() == n && exists|a: Seq<char>| s == #[trigger] (a + t),
            None => forall|a: Seq<char>, t: Seq<char>|
                s == #[trigger] (a + t) ==> encode_utf8(t).len() != n,
        },
    decreases s.len(),
{
    if encode_utf8(s).len() == n {
        assert(s =~= Seq::<char>::empty() + s);
    } else if s.len() > 0 {
        let tail = s.drop_first();
        last_bytes_are_at_the_end(tail, n);
        match last_bytes(s, n) {
            Some(t) => {
                let a = choose|a: Seq<char>| tail == #[trigger] (a + t);
                assert(s =~= (seq![s.first()] + a) + t);
            },
            None => {
                assert forall|a: Seq<char>, t: Seq<char>| s == #[trigger] (a + t) implies encode_utf8(
                    t,
                ).len() != n by {
                    if a.len() > 0 {
                        assert(tail =~= a.drop_first() + t);
                    } else {
                        assert(t =~= s);
                    }
                }
            },
        }
    } else {
        assert forall|a: Seq<char>, t: Seq<char>| s == #[trigger] (a + t) implies encode_utf8(
            t,
        ).len() != n by {
            assert(t =~= s);
        }
    }
}

/// What has a text has every part of it.
pub proof fn has_the_parts(s: Seq<char>, p: Seq<char>, a: Seq<char>, q: Seq<char>, b: Seq<char>)
    requires
        self::has(s, p),
        p == a + q + b,
    ensures
        self::has(s, q),
{
    let i = choose|i: int| occurs_at(s, p, i);
    let k = i + a.len();
    assert(s.subrange(i, i + p.len()) == p);
    assert(s.subrange(k, k + q.len()) =~= p.subrange(a.len() as int, (a.len() + q.len()) as int));
    assert(p.subrange(a.len() as int, (a.len() + q.len()) as int) =~= q);
    assert(occurs_at(s, q, k));
}

/// A text is found first behind one that does not hold the character that it starts with.
pub proof fn first_behind(a: Seq<char>, p: Seq<char>, b: Seq<char>)
    requires
        p.len() > 0,
        !a.contains(p[0]),
    ensures
        find_from(a + p + b, p, 0) == Some(a.len() as int),
{
    let s = a + p + b;
    let n = a.len() as int;
    assert(s.subrange(n, n + p.len()) =~= p);
    assert forall|j: int| 0 <= j < n implies #[trigger] s[j] != p[0] by {
        assert(s[j] == a[j]);
    }
    found_at(s, p, 0, n);
}

/// The first occurrence is found.
proof fn found_at(s: Seq<char>, p: Seq<char>, from: int, n: int)
    requires
        0 <= from <= n,
        n + p.len() <= s.len(),
        p.len() > 0,
        s.subrange(n, n + p.len()) == p,
        forall|j: int| from <= j < n ==> #[trigger] s[j] != p[0],
    ensures
        find_from(s, p, from) == Some(n),
    decreases n - from,
{
    if from < n {
        if occurs_at(s, p, from) {
            assert(s.subrange(from, from + p.len())[0] == s[from]);
        }
        found_at(s, p, from + 1, n);
    }
}

/// Replacing one character by another changes exactly the places that hold it.
pub proof fn characters_are_replaced(s: Seq<char>, c: char, by: char)
    ensures
        replace(s, seq![c], seq![by]).len() == s.len(),
        forall|i: int|
            0 <= i < s.len() ==> #[trigger] replace(s, seq![c], seq![by])[i] == (if s[i] == c {
                by
            } else {
                s[i]
            }),
{
    characters_are_replaced_from(s, c, by, 0);
}

/// Replacing one character from a place on.
proof fn characters_are_replaced_from(s: Seq<char>, c: char, by: char, i: int)
    requires
        0 <= i <= s.len(),
    ensures
        replace_from(s, seq![c], seq![by], i).len() == s.len() - i,
        forall|k: int|
            0 <= k < s.len() - i ==> #[trigger] replace_from(s, seq![c], seq![by], i)[k] == (if s[i
                + k] == c {
                by
            } else {
                s[i + k]
            }),
    decreases s.len() - i,
{
    if i < s.len() {
        characters_are_replaced_from(s, c, by, i + 1);
        let tail = replace_from(s, seq![c], seq![by], i + 1);
        let now = replace_from(s, seq![c], seq![by], i);
        assert(s.subrange(i, i + 1) =~= seq![s[i]]);
        assert(occurs_at(s, seq![c], i) == (s[i] == c)) by {
            assert(seq![s[i]][0] == s[i]);
            assert(seq![c][0] == c);
        }
        assert forall|k: int| 0 <= k < s.len() - i implies #[trigger] now[k] == (if s[i + k] == c {
            by
        } else {
            s[i + k]
        }) by {
            if k > 0 {
                assert(now[k] == tail[k - 1]);
            }
        }
    }
}

/// The first word of a text stays its first, whatever follows behind a blank.
pub proof fn first_word_stays(word: Seq<char>, rest: Seq<char>)
    requires
        word.len() > 0,
        forall|i: int| 0 <= i < word.len() ==> !is_space(#[trigger] word[i]),
    ensures
        words(word.push(' ') + rest).len() > 0,
        words(word.push(' ') + rest)[0] == word,
    decreases rest.len(),
{
    let s = word.push(' ') + rest;
    let full = |w: Seq<char>| w.len() > 0;
    first_piece_stays(word, rest);
    let parts = split(s, Sep::Space);
    assert(parts[0] == word);
    filter_keeps_first(parts, full);
}

/// What is let through first stays first.
proof fn filter_keeps_first(v: Seq<Seq<char>>, f: spec_fn(Seq<char>) -> bool)
    requires
        v.len() > 0,
        f(v[0]),
    ensures
        v.filter(f).len() > 0,
        v.filter(f)[0] == v[0],
    decreases v.len(),
{
    reveal(Seq::filter);
    if v.len() > 1 {
        filter_keeps_first(v.drop_last(), f);
    } else {
        assert(v.drop_last() =~= Seq::empty());
    }
}

/// The first piece in front of a blank stays the first.
proof fn first_piece_stays(word: Seq<char>, rest: Seq<char>)
    requires
        forall|i: int| 0 <= i < word.len() ==> !is_space(#[trigger] word[i]),
    ensures
        split(word.push(' ') + rest, Sep::Space).len() >= 2,
        split(word.push(' ') + rest, Sep::Space)[0] == word,
    decreases rest.len(),
{
    let s = word.push(' ') + rest;
    if rest.len() == 0 {
        split_behind(word, ' ', rest, Sep::Space);
        unsplit(word, Sep::Space);
    } else {
        first_piece_stays(word, rest.drop_last());
        assert(s.drop_last() =~= word.push(' ') + rest.drop_last());
    }
}

/// An empty text has no words.
pub proof fn no_words()
    ensures
        words(Seq::empty()).len() == 0,
{
    reveal(Seq::filter);
    let full = |w: Seq<char>| w.len() > 0;
    let none = Seq::<char>::empty();
    unsplit(none, Sep::Space);
    assert(seq![none].drop_last() =~= Seq::empty());
    assert(Seq::<Seq<char>>::empty().filter(full) =~= Seq::empty());
}

/// A line that is a key and a value starts with the key, the rest of it is the value, and
/// it holds a character only where one of them does.
pub proof fn setting(key: Seq<char>, value: Seq<char>, c: char)
    requires
        !value.contains(c),
        !key.contains(c),
    ensures
        starts_with(key + value, key),
        rest(key + value, key) == value,
        !(key + value).contains(c),
{
    let line = key + value;
    start_means_made_of(line, key);
    if line.contains(c) {
        let i = choose|i: int| 0 <= i < line.len() && line[i] == c;
        if i < key.len() {
            assert(key[i] == c);
        } else {
            assert(value[i - key.len()] == c);
        }
    }
}

/// A line in which another character stands than in a key does not start with it.
pub proof fn starts_otherwise(line: Seq<char>, key: Seq<char>, at: int)
    requires
        0 <= at < key.len(),
        at < line.len(),
        line[at] != key[at],
    ensures
        !starts_with(line, key),
{
    if starts_with(line, key) {
        assert(line.subrange(0, key.len() as int)[at] == line[at]);
    }
}

/// Beyond ASCII the spaces are those that Unicode calls white space.
pub proof fn unicode_spaces(c: char)
    ensures
        (c as u32) >= 0x80 ==> (is_space(c) <==> c == '\u{85}' || c == '\u{a0}' || c == '\u{1680}'
            || '\u{2000}' <= c <= '\u{200a}' || c == '\u{2028}' || c == '\u{2029}' || c == '\u{202f}'
            || c == '\u{205f}' || c == '\u{3000}'),
{
}

/// The pieces of a text that goes on behind a separator are its pieces, then those of what
/// follows.
pub proof fn split_in_two(a: Seq<char>, c: char, b: Seq<char>)
    ensures
        split(a.push(c) + b, Sep::At(c)) == split(a, Sep::At(c)) + split(b, Sep::At(c)),
    decreases b.len(),
{
    let sep = Sep::At(c);
    let s = a.push(c) + b;
    if b.len() == 0 {
        assert(s =~= a.push(c));
        assert(s.drop_last() =~= a);
        assert(split(s, sep) =~= split(a, sep) + split(b, sep));
    } else {
        let head = b.drop_last();
        split_in_two(a, c, head);
        assert(s.drop_last() =~= a.push(c) + head);
        assert(s.last() == b.last());
        split_has_a_piece(head, sep);
        assert(split(s, sep) =~= split(a, sep) + split(b, sep));
    }
}

} // verus!
