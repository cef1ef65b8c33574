//! Text wrapping: splitting a message body on newlines and wrapping every
//! segment to a column width, hard-breaking tokens wider than the column.

use vstd::prelude::*;
use vstd::string::*;

verus! {

/// True when every character of `s` is a printable ASCII character
/// (space through tilde).  For such text the display width of a line
/// equals its character count.
pub open spec fn printable_ascii(s: Seq<char>) -> bool {
    forall|i: int| 0 <= i < s.len() ==> 32 <= (#[trigger] s[i]) as u32 <= 126
}

/// The segments of `s` between newline characters, in order; the text
/// before the first newline and after the last one are segments too, so
/// an empty input yields one empty segment.
pub open spec fn spec_split_lines(s: Seq<char>) -> Seq<Seq<char>>
    decreases s.len(),
{
    if s.len() == 0 {
        seq![Seq::<char>::empty()]
    } else if s[0] == '\n' {
        seq![Seq::<char>::empty()] + spec_split_lines(s.skip(1))
    } else {
        let rest = spec_split_lines(s.skip(1));
        seq![seq![s[0]] + rest[0]] + rest.skip(1)
    }
}

pub proof fn lemma_split_lines_len(s: Seq<char>)
    ensures
        spec_split_lines(s).len() >= 1,
    decreases s.len(),
{
    if s.len() == 0 {
    } else {
        lemma_split_lines_len(s.skip(1));
    }
}

/// Splitting a newline-free string yields that string as the one segment.
pub proof fn lemma_split_lines_no_newline(s: Seq<char>)
    requires
        forall|i: int| 0 <= i < s.len() ==> s[i] != '\n',
    ensures
        spec_split_lines(s) =~= seq![s],
    decreases s.len(),
{
    if s.len() == 0 {
        assert(s =~= Seq::<char>::empty());
    } else {
        lemma_split_lines_no_newline(s.skip(1));
        assert(seq![s[0]] + s.skip(1) =~= s);
        assert(spec_split_lines(s) =~= seq![s]);
    }
}

/// Splitting at the first newline: the text before it is the first
/// segment, and the rest of the segments come from the text after it.
pub proof fn lemma_split_lines_first_newline(s: Seq<char>, k: int)
    requires
        0 <= k < s.len(),
        s[k] == '\n',
        forall|j: int| 0 <= j < k ==> s[j] != '\n',
    ensures
        spec_split_lines(s) =~= seq![s.take(k)] + spec_split_lines(s.skip(k + 1)),
    decreases k,
{
    if k == 0 {
        assert(s.take(0) =~= Seq::<char>::empty());
    } else {
        lemma_split_lines_first_newline(s.skip(1), k - 1);
        lemma_split_lines_len(s.skip(1).skip(k));
        let rest = spec_split_lines(s.skip(1));
        assert(s.skip(1).take(k - 1) =~= s.take(k).skip(1));
        assert(seq![s[0]] + s.skip(1).take(k - 1) =~= s.take(k));
        assert(s.skip(1).skip(k) =~= s.skip(k + 1));
        assert(rest.skip(1) =~= spec_split_lines(s.skip(k + 1)));
        assert(spec_split_lines(s) =~= seq![s.take(k)] + spec_split_lines(s.skip(k + 1)));
    }
}

/// Splits `s` into its newline-separated segments.
pub fn split_lines(s: &str) -> (r: Vec<String>)
    ensures
        r.deep_view() == spec_split_lines(s@),
        r.len() >= 1,
{
    let n = s.unicode_len();
    let mut r: Vec<String> = Vec::new();
    let mut start: usize = 0;
    let mut i: usize = 0;
    proof {
        assert(s@.skip(0) =~= s@);
        assert(r.deep_view() =~= Seq::<Seq<char>>::empty());
    }
    while i < n
        invariant
            start <= i <= n,
            n == s@.len(),
            forall|j: int| start <= j < i ==> s@[j] != '\n',
            spec_split_lines(s@) =~= r.deep_view() + spec_split_lines(s@.skip(start as int)),
        decreases n - i,
    {
        if s.get_char(i) == '\n' {
            let piece = s.substring_char(start, i).to_owned();
            proof {
                lemma_split_lines_first_newline(s@.skip(start as int), i - start);
                assert(s@.skip(start as int).take(i - start) =~= piece@);
                assert(s@.skip(start as int).skip(i - start + 1) =~= s@.skip(i + 1));
            }
            let ghost pre = r.deep_view();
            r.push(piece);
            proof {
                assert(r.deep_view() =~= pre + seq![piece@]);
                assert(spec_split_lines(s@) =~= r.deep_view() + spec_split_lines(
                    s@.skip(i as int + 1),
                ));
            }
            start = i + 1;
        }
        i = i + 1;
    }
    let piece = s.substring_char(start, n).to_owned();
    proof {
        lemma_split_lines_no_newline(s@.skip(start as int));
        assert(s@.skip(start as int) =~= piece@);
    }
    let ghost pre = r.deep_view();
    r.push(piece);
    proof {
        assert(r.deep_view() =~= pre + seq![piece@]);
    }
    r
}

/// The lines that wrapping `s` to `width` columns produces: whitespace
/// breaks where possible, tokens wider than the column hard-broken.
pub uninterp spec fn wrap_of(s: Seq<char>, width: int) -> Seq<Seq<char>>;

/// Relies on `textwrap::wrap` with `break_words(true)` and the greedy
/// first-fit algorithm: the wrapped lines are a function of the text and
/// the width alone; at least one line comes back; and since first fit
/// starts a new line rather than overfilling one, and words wider than
/// the column are hard-broken into pieces that fit it, no line is wider
/// than the column — which for printable ASCII text, where every
/// character has display width one, bounds the character count of each
/// line.
#[verifier::external_body]
pub(crate) fn wrap_width(s: &str, width: usize) -> (r: Vec<String>)
    requires
        width >= 1,
    ensures
        r.deep_view() == wrap_of(s@, width as int),
        r.deep_view().len() >= 1,
        printable_ascii(s@) ==> forall|i: int|
            0 <= i < r.deep_view().len() ==> (#[trigger] r.deep_view()[i]).len() <= width,
{
    let options = textwrap::Options::new(width)
        .break_words(true)
        .wrap_algorithm(textwrap::WrapAlgorithm::FirstFit);
    textwrap::wrap(s, options)
        .into_iter()
        .map(|line| line.into_owned())
        .collect()
}

/// The concatenation of the wrapped forms of each segment, in order.
pub open spec fn wrap_segments(segs: Seq<Seq<char>>, width: int) -> Seq<Seq<char>>
    decreases segs.len(),
{
    if segs.len() == 0 {
        Seq::empty()
    } else {
        wrap_of(segs[0], width) + wrap_segments(segs.skip(1), width)
    }
}

/// The wrapped lines of a whole message body: the body is split on
/// newlines and every segment is wrapped to `width` columns.
pub open spec fn wrapped_body(s: Seq<char>, width: int) -> Seq<Seq<char>> {
    wrap_segments(spec_split_lines(s), width)
}

/// Every character of every segment of `s` is a character of `s`, so a
/// printable string splits into printable segments.
pub proof fn lemma_split_lines_printable(s: Seq<char>)
    requires
        printable_ascii(s),
    ensures
        forall|k: int|
            0 <= k < spec_split_lines(s).len() ==> printable_ascii(
                #[trigger] spec_split_lines(s)[k],
            ),
    decreases s.len(),
{
    if s.len() == 0 {
    } else {
        assert(printable_ascii(s.skip(1)));
        lemma_split_lines_printable(s.skip(1));
        if s[0] == '\n' {
        } else {
            let rest = spec_split_lines(s.skip(1));
            lemma_split_lines_len(s.skip(1));
            assert(printable_ascii(seq![s[0]] + rest[0]));
        }
    }
}

/// Wraps `s` to `width` columns, treating each newline in `s` as a hard
/// break.  This is the transcript's text wrapper: every produced line of a
/// printable ASCII input is at most `width` characters wide, tokens wider
/// than the column having been hard-broken, and at least one line comes
/// back for any input.
pub fn wrap_text(s: &str, width: usize) -> (r: Vec<String>)
    requires
        width >= 1,
    ensures
        r.deep_view() == wrapped_body(s@, width as int),
        r.deep_view().len() >= 1,
        printable_ascii(s@) ==> forall|i: int|
            0 <= i < r.deep_view().len() ==> (#[trigger] r.deep_view()[i]).len() <= width,
{
    let segs = split_lines(s);
    let mut r: Vec<String> = Vec::new();
    let mut k: usize = 0;
    proof {
        assert(segs.deep_view().skip(0) =~= segs.deep_view());
        assert(r.deep_view() + wrap_segments(segs.deep_view(), width as int) =~= wrap_segments(
            segs.deep_view(),
            width as int,
        ));
    }
    while k < segs.len()
        invariant
            k <= segs.len(),
            width >= 1,
            segs.deep_view() == spec_split_lines(s@),
            segs.deep_view().len() == segs.len(),
            wrapped_body(s@, width as int) =~= r.deep_view() + wrap_segments(
                segs.deep_view().skip(k as int),
                width as int,
            ),
            k > 0 ==> r.deep_view().len() >= 1,
            printable_ascii(s@) ==> forall|i: int|
                0 <= i < r.deep_view().len() ==> (#[trigger] r.deep_view()[i]).len() <= width,
        decreases segs.len() - k,
    {
        let mut piece = wrap_width(segs[k].as_str(), width);
        let ghost pre = r.deep_view();
        let ghost piece_view = piece.deep_view();
        r.append(&mut piece);
        proof {
            assert(r.deep_view() =~= pre + piece_view);
            assert(segs.deep_view().skip(k as int)[0] == segs.deep_view()[k as int]);
            assert(segs.deep_view().skip(k as int).skip(1) =~= segs.deep_view().skip(
                k as int + 1,
            ));
            if printable_ascii(s@) {
                lemma_split_lines_printable(s@);
                assert(printable_ascii(spec_split_lines(s@)[k as int]));
                assert forall|i: int| 0 <= i < r.deep_view().len() implies (#[trigger] r.deep_view()[
                    i
                ]).len() <= width by {
                    if i >= pre.len() {
                        assert(r.deep_view()[i] == piece_view[i - pre.len()]);
                    }
                }
            }
        }
        k = k + 1;
    }
    proof {
        assert(segs.deep_view().skip(segs.len() as int) =~= Seq::<Seq<char>>::empty());
        assert(r.deep_view() =~= r.deep_view() + Seq::<Seq<char>>::empty());
    }
    r
}

} // verus!
