use vstd::prelude::*;

verus! {

/// The line terminator that the model's tokenizer treats as the
/// end-of-document marker.
pub open spec fn line_terminator() -> char {
    '\n'
}

/// Whether a text already carries the trailing line terminator.
pub open spec fn ends_with_terminator(s: Seq<char>) -> bool {
    s.len() > 0 && s[s.len() - 1] == line_terminator()
}

/// The text as the model must see it: unchanged when it already ends with
/// the line terminator, and with one appended otherwise. Single-line and
/// multi-line inputs thereby behave exactly as they would when read from a
/// batch file.
pub open spec fn normalized(s: Seq<char>) -> Seq<char> {
    if ends_with_terminator(s) {
        s
    } else {
        s.push(line_terminator())
    }
}

/// Normalization changes nothing the second time around.
pub proof fn lemma_normalized_idempotent(s: Seq<char>)
    ensures
        normalized(normalized(s)) == normalized(s),
{
}

/// Trailing-terminator invariance: a text that does not yet end with the
/// line terminator is normalized to the same form as that text with the
/// terminator appended, so the model is invoked on identical input for
/// both. The restriction is necessary: for `s` already ending with the
/// terminator, appending another one yields a genuinely longer document.
pub proof fn lemma_normalized_append_terminator(s: Seq<char>)
    requires
        !ends_with_terminator(s),
    ensures
        normalized(s.push(line_terminator())) == normalized(s),
{
}

/// Appends the line terminator to `text` unless it already ends with one,
/// leaving the caller's original text untouched.
pub fn normalize_text(text: &str) -> (r: String)
    ensures
        r@ == normalized(text@),
{
    let n = text.unicode_len();
    if n > 0 {
        let last = text.get_char(n - 1);
        if last == '\n' {
            return text.to_owned();
        }
    }
    let mut owned = text.to_owned();
    owned.append("\n");
    proof {
        reveal_strlit("\n");
        assert(owned@ =~= normalized(text@));
    }
    owned
}

/// The marker the model prepends to every classification label.
pub open spec fn label_marker() -> Seq<char> {
    seq!['_', '_', 'l', 'a', 'b', 'e', 'l', '_', '_']
}

/// Whether a label still starts with the model's internal marker.
pub open spec fn has_label_marker(s: Seq<char>) -> bool {
    s.len() >= 9 && s.subrange(0, 9) == label_marker()
}

/// The label with every leading repetition of the model's marker removed.
pub open spec fn stripped(s: Seq<char>) -> Seq<char>
    decreases s.len(),
{
    if has_label_marker(s) {
        stripped(s.skip(9))
    } else {
        s
    }
}

/// A stripped label never starts with the marker.
pub proof fn lemma_stripped_has_no_marker(s: Seq<char>)
    ensures
        !has_label_marker(stripped(s)),
    decreases s.len(),
{
    if has_label_marker(s) {
        lemma_stripped_has_no_marker(s.skip(9));
    }
}

/// Removes every leading repetition of the model's label marker from
/// `label`; the remainder, scores included, passes through unmodified.
pub fn strip_label_marker(label: &str) -> (r: String)
    ensures
        r@ == stripped(label@),
    decreases label@.len(),
{
    let marker = "__label__";
    proof {
        reveal_strlit("__label__");
        assert(marker@ =~= label_marker());
    }
    let n = label.unicode_len();
    if n >= 9 {
        let mut i: usize = 0;
        let mut matched = true;
        while i < 9
            invariant
                i <= 9,
                n == label@.len(),
                n >= 9,
                marker@ == label_marker(),
                matched <==> (forall|j: int| 0 <= j < i ==> label@[j] == label_marker()[j]),
            decreases 9 - i,
        {
            let c = label.get_char(i);
            let m = marker.get_char(i);
            matched = matched && c == m;
            i += 1;
        }
        if matched {
            proof {
                assert(label@.subrange(0, 9) =~= label_marker());
            }
            let rest = label.substring_char(9, n);
            proof {
                assert(rest@ =~= label@.skip(9));
            }
            return strip_label_marker(rest);
        }
        proof {
            assert(label@.subrange(0, 9) != label_marker()) by {
                let j = choose|j: int| 0 <= j < 9 && label@[j] != label_marker()[j];
                assert(label@.subrange(0, 9)[j] != label_marker()[j]);
            }
        }
    }
    label.to_owned()
}

} // verus!
