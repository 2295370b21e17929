//! Word and argument expansion: each word part expands to text, unquoted
//! expansion results are field-split, then brace expansion (with sentinel
//! protection for quoted text), sentinel restoration and glob expansion turn
//! the fields into argv strings. Command substitution re-enters the executor,
//! guarded by the substitution-depth bound.
use vstd::prelude::*;
use vstd::string::StrSliceExecFns;
use vstd::string::StringExecFns;

use crate::ast::{Word, WordPart};
use crate::braces::{protect_braces, spec_brace_protect};
use crate::control::ControlFlow;
use crate::exec::exec_command;
use crate::fields::{
    Fragment, spec_frag_views, spec_flatten_frags, spec_split_chars, spec_split_fragments,
    split_fragments,
};
use crate::host::{HostInterface, spec_log_extends, spec_same_host};
use crate::parse::parse;
use crate::state::{
    MAX_SUBSTITUTION_DEPTH, ShellState, spec_depth_measure, spec_same_session,
};
use crate::strutil::strip_one_trailing_newline;

verus! {

/// Parts whose text is taken as it stands: literal and quoted text. All other
/// parts are expansions, and field splitting applies to what they produce.
pub open spec fn spec_part_inert(p: WordPart) -> bool {
    match p {
        WordPart::Literal(t) => true,
        WordPart::QuotedLiteral(t) => true,
        _ => false,
    }
}

/// The text an inert part expands to: literal text as it is, quoted text with
/// its braces protected by sentinels.
pub open spec fn spec_inert_text(p: WordPart) -> Seq<char> {
    match p {
        WordPart::Literal(t) => t@,
        WordPart::QuotedLiteral(t) => spec_brace_protect(t@),
        _ => Seq::empty(),
    }
}

/// What a part expands to once the substitution depth is exhausted: inert
/// text as always, a variable from the environment, and nothing at all for a
/// substitution — the rest of the command proceeds as if the part were the
/// empty string.
pub open spec fn spec_part_text_blocked(p: WordPart, env: Map<Seq<char>, Seq<char>>) -> Seq<char> {
    match p {
        WordPart::Literal(t) => t@,
        WordPart::QuotedLiteral(t) => spec_brace_protect(t@),
        WordPart::Variable(n) => if env.contains_key(n@) {
            env[n@]
        } else {
            Seq::empty()
        },
        _ => Seq::empty(),
    }
}

pub open spec fn spec_concat_blocked(parts: Seq<WordPart>, env: Map<Seq<char>, Seq<char>>) -> Seq<
    char,
>
    decreases parts.len(),
{
    if parts.len() == 0 {
        Seq::empty()
    } else {
        spec_part_text_blocked(parts[0], env) + spec_concat_blocked(parts.drop_first(), env)
    }
}

pub open spec fn spec_word_inert(parts: Seq<WordPart>) -> bool {
    forall|j: int| 0 <= j < parts.len() ==> spec_part_inert(#[trigger] parts[j])
}

/// What a word of inert parts expands to: the concatenation of its parts.
pub open spec fn spec_concat_inert(parts: Seq<WordPart>) -> Seq<char>
    decreases parts.len(),
{
    if parts.len() == 0 {
        Seq::empty()
    } else {
        spec_inert_text(parts[0]) + spec_concat_inert(parts.drop_first())
    }
}

fn is_splittable_part(p: &WordPart) -> (r: bool)
    ensures
        r == !spec_part_inert(*p),
{
    match p {
        WordPart::Literal(t) => false,
        WordPart::QuotedLiteral(t) => false,
        _ => true,
    }
}

/// Expands one word part.
///
/// Literal text stands as it is; quoted text gets its braces protected;
/// a variable expands to its value in the environment, or to nothing.
/// `$(...)` parses and executes the inner text, capturing its stdout with one
/// trailing newline stripped — unless no executor was requested or the
/// substitution depth is exhausted, in which case it expands to nothing
/// without touching the host. The remaining expansion forms are placeholders
/// that expand to nothing. The substitution depth always returns to its
/// entry value.
pub fn expand_word_part<H: HostInterface>(
    state: &mut ShellState,
    host: &mut H,
    part: &WordPart,
    with_exec: bool,
) -> (r: String)
    ensures
        spec_same_session(*old(state), *final(state)),
        spec_log_extends(old(host).log(), final(host).log()),
        spec_part_inert(*part) ==> r@ == spec_inert_text(*part) && *final(state) == *old(state)
            && spec_same_host(*old(host), *final(host)),
        (*part) matches WordPart::Variable(n) ==> (r@ == if old(state).env@.contains_key(n@) {
            old(state).env@[n@]
        } else {
            Seq::<char>::empty()
        }) && *final(state) == *old(state) && spec_same_host(*old(host), *final(host)),
        ((*part) is CommandSub && !with_exec) ==> r@.len() == 0 && *final(state) == *old(state)
            && spec_same_host(*old(host), *final(host)),
        ((*part) is CommandSub && old(state).substitution_depth >= MAX_SUBSTITUTION_DEPTH)
            ==> r@.len() == 0 && *final(state) == *old(state) && spec_same_host(
            *old(host),
            *final(host),
        ),
        ((*part) is ParamExpansion || (*part) is ArithmeticExpansion || (*part) is ProcessSub)
            ==> r@.len() == 0 && *final(state) == *old(state) && spec_same_host(
            *old(host),
            *final(host),
        ),
        old(state).substitution_depth >= MAX_SUBSTITUTION_DEPTH ==> r@ == spec_part_text_blocked(
            *part,
            old(state).env@,
        ) && *final(state) == *old(state) && spec_same_host(*old(host), *final(host)),
    decreases spec_depth_measure(state.substitution_depth), 0nat, 0nat,
{
    match part {
        WordPart::Literal(t) => t.clone(),
        WordPart::QuotedLiteral(t) => protect_braces(t.as_str()),
        WordPart::Variable(name) => {
            let found = state.env.get(name.as_str());
            match found {
                Some(v) => v.clone(),
                None => String::new(),
            }
        },
        WordPart::CommandSub(text) => {
            if !with_exec {
                return String::new();
            }
            if state.substitution_depth >= MAX_SUBSTITUTION_DEPTH {
                return String::new();
            }
            state.substitution_depth = state.substitution_depth + 1;
            let inner = parse(text.as_str());
            let outcome = exec_command(state, host, &inner);
            state.substitution_depth = state.substitution_depth - 1;
            let captured: String = match outcome {
                Ok(ControlFlow::Normal(rr)) => rr.stdout,
                Ok(ControlFlow::Exit(code, out, err)) => out,
                _ => String::new(),
            };
            strip_one_trailing_newline(captured.as_str())
        },
        WordPart::ParamExpansion(t) => String::new(),
        WordPart::ArithmeticExpansion(t) => String::new(),
        WordPart::ProcessSub(t) => String::new(),
    }
}

/// Expands a whole word by concatenating the expansion of each part; the
/// result of a substitution is spliced at the exact position of its part.
/// For a word of inert parts the result is exactly their concatenation.
pub fn expand_word<H: HostInterface>(
    state: &mut ShellState,
    host: &mut H,
    word: &Word,
    with_exec: bool,
) -> (r: String)
    ensures
        spec_same_session(*old(state), *final(state)),
        spec_log_extends(old(host).log(), final(host).log()),
        spec_word_inert(word.parts@) ==> r@ == spec_concat_inert(word.parts@) && *final(state)
            == *old(state) && spec_same_host(*old(host), *final(host)),
        old(state).substitution_depth >= MAX_SUBSTITUTION_DEPTH ==> r@ == spec_concat_blocked(
            word.parts@,
            old(state).env@,
        ) && *final(state) == *old(state) && spec_same_host(*old(host), *final(host)),
    decreases spec_depth_measure(state.substitution_depth), 0nat, 1nat,
{
    let mut r = String::new();
    let mut i: usize = 0;
    proof {
        assert(word.parts@.subrange(0, word.parts@.len() as int) =~= word.parts@);
    }
    while i < word.parts.len()
        invariant
            0 <= i <= word.parts@.len(),
            spec_same_session(*old(state), *state),
            spec_log_extends(old(host).log(), host.log()),
            spec_depth_measure(state.substitution_depth) == spec_depth_measure(
                old(state).substitution_depth,
            ),
            spec_word_inert(word.parts@) ==> r@ + spec_concat_inert(
                word.parts@.subrange(i as int, word.parts@.len() as int),
            ) == spec_concat_inert(word.parts@) && *state == *old(state) && spec_same_host(
                *old(host),
                *host,
            ),
            old(state).substitution_depth >= MAX_SUBSTITUTION_DEPTH ==> r@ + spec_concat_blocked(
                word.parts@.subrange(i as int, word.parts@.len() as int),
                old(state).env@,
            ) == spec_concat_blocked(word.parts@, old(state).env@) && *state == *old(state)
                && spec_same_host(*old(host), *host),
        decreases word.parts@.len() - i,
    {
        proof {
            assert(word.parts@.subrange(i as int, word.parts@.len() as int).drop_first()
                =~= word.parts@.subrange(i + 1, word.parts@.len() as int));
            assert(word.parts@.subrange(i as int, word.parts@.len() as int)[0] == word.parts@[
                i as int]);
        }
        let piece = expand_word_part(state, host, &word.parts[i], with_exec);
        r.append(piece.as_str());
        i += 1;
        proof {
            if spec_word_inert(word.parts@) {
                assert(spec_part_inert(word.parts@[i - 1]));
                assert(r@ + spec_concat_inert(
                    word.parts@.subrange(i as int, word.parts@.len() as int),
                ) =~= spec_concat_inert(word.parts@));
            }
            if old(state).substitution_depth >= MAX_SUBSTITUTION_DEPTH {
                assert(r@ + spec_concat_blocked(
                    word.parts@.subrange(i as int, word.parts@.len() as int),
                    old(state).env@,
                ) =~= spec_concat_blocked(word.parts@, old(state).env@));
            }
        }
    }
    proof {
        assert(word.parts@.subrange(word.parts@.len() as int, word.parts@.len() as int) =~= Seq::<
            WordPart,
        >::empty());
        if spec_word_inert(word.parts@) {
            assert(r@ + Seq::<char>::empty() =~= r@);
        }
        if old(state).substitution_depth >= MAX_SUBSTITUTION_DEPTH {
            assert(r@ + Seq::<char>::empty() =~= r@);
        }
    }
    r
}

/// All the fragments of all the words are inert.
pub open spec fn spec_views_inert(views: Seq<(Seq<char>, bool)>) -> bool {
    forall|j: int| 0 <= j < views.len() ==> !(#[trigger] views[j]).1
}

pub open spec fn spec_concat_texts(views: Seq<(Seq<char>, bool)>) -> Seq<char>
    decreases views.len(),
{
    if views.len() == 0 {
        Seq::empty()
    } else {
        views[0].0 + spec_concat_texts(views.drop_first())
    }
}

proof fn lemma_split_chars_inert(chars: Seq<(char, bool)>, cur: Seq<char>, acc: Seq<Seq<char>>)
    requires
        forall|j: int| 0 <= j < chars.len() ==> !(#[trigger] chars[j]).1,
    ensures
        spec_split_chars(chars, cur, acc) == if cur.len() + chars.len() > 0 {
            acc.push(cur + chars.map_values(|p: (char, bool)| p.0))
        } else {
            acc
        },
    decreases chars.len(),
{
    let fst = chars.map_values(|p: (char, bool)| p.0);
    if chars.len() == 0 {
        assert(cur + fst =~= cur);
    } else {
        lemma_split_chars_inert(chars.drop_first(), cur.push(chars[0].0), acc);
        assert(cur.push(chars[0].0) + chars.drop_first().map_values(|p: (char, bool)| p.0)
            =~= cur + fst);
    }
}

proof fn lemma_flatten_inert(views: Seq<(Seq<char>, bool)>)
    requires
        spec_views_inert(views),
    ensures
        forall|j: int|
            0 <= j < spec_flatten_frags(views).len() ==> !(#[trigger] spec_flatten_frags(
                views,
            )[j]).1,
        spec_flatten_frags(views).map_values(|p: (char, bool)| p.0) == spec_concat_texts(views),
    decreases views.len(),
{
    if views.len() == 0 {
    } else {
        assert(spec_views_inert(views.drop_first())) by {
            assert(forall|j: int|
                0 <= j < views.drop_first().len() ==> views.drop_first()[j] == views[j + 1]);
        }
        lemma_flatten_inert(views.drop_first());
        assert(!views[0].1);
        assert(spec_flatten_frags(views).map_values(|p: (char, bool)| p.0) =~= spec_concat_texts(
            views,
        ));
    }
}

/// What the inert fragments of one word contribute to the argv: the
/// concatenated text as a single field, or nothing when it is empty.
pub proof fn lemma_split_fragments_inert(views: Seq<(Seq<char>, bool)>)
    requires
        spec_views_inert(views),
    ensures
        spec_split_fragments(views) == if spec_concat_texts(views).len() > 0 {
            seq![spec_concat_texts(views)]
        } else {
            Seq::<Seq<char>>::empty()
        },
{
    let flat = spec_flatten_frags(views);
    lemma_flatten_inert(views);
    lemma_split_chars_inert(flat, Seq::empty(), Seq::empty());
    assert(flat.map_values(|p: (char, bool)| p.0).len() == flat.len());
    if spec_concat_texts(views).len() > 0 {
        assert(Seq::<char>::empty() + flat.map_values(|p: (char, bool)| p.0)
            =~= spec_concat_texts(views));
        assert(Seq::<Seq<char>>::empty().push(spec_concat_texts(views)) =~= seq![
            spec_concat_texts(views),
        ]);
    }
}

/// The argv a word list denotes once the substitution depth is exhausted:
/// each word's parts expand to their blocked texts — substitutions to nothing
/// — and field splitting applies as always.
pub open spec fn spec_blocked_argv(words: Seq<Word>, env: Map<Seq<char>, Seq<char>>) -> Seq<
    Seq<char>,
>
    decreases words.len(),
{
    if words.len() == 0 {
        Seq::<Seq<char>>::empty()
    } else {
        spec_split_fragments(
            words[0].parts@.map_values(
                |p: WordPart| (spec_part_text_blocked(p, env), !spec_part_inert(p)),
            ),
        ) + spec_blocked_argv(words.drop_first(), env)
    }
}

/// The argv that a sequence of inert words denotes.
pub open spec fn spec_literal_argv(words: Seq<Word>) -> Seq<Seq<char>>
    decreases words.len(),
{
    if words.len() == 0 {
        Seq::<Seq<char>>::empty()
    } else {
        let contribution = if spec_concat_inert(words[0].parts@).len() > 0 {
            seq![spec_concat_inert(words[0].parts@)]
        } else {
            Seq::<Seq<char>>::empty()
        };
        contribution + spec_literal_argv(words.drop_first())
    }
}

pub open spec fn spec_words_inert(words: Seq<Word>) -> bool {
    forall|j: int| 0 <= j < words.len() ==> spec_word_inert((#[trigger] words[j]).parts@)
}

proof fn lemma_concat_texts_of_parts(parts: Seq<WordPart>)
    requires
        spec_word_inert(parts),
    ensures
        spec_concat_texts(parts.map_values(|p: WordPart| (spec_inert_text(p), false)))
            == spec_concat_inert(parts),
    decreases parts.len(),
{
    let views = parts.map_values(|p: WordPart| (spec_inert_text(p), false));
    if parts.len() == 0 {
    } else {
        assert(spec_word_inert(parts.drop_first())) by {
            assert(forall|j: int|
                0 <= j < parts.drop_first().len() ==> parts.drop_first()[j] == parts[j + 1]);
        }
        lemma_concat_texts_of_parts(parts.drop_first());
        assert(views.drop_first() =~= parts.drop_first().map_values(
            |p: WordPart| (spec_inert_text(p), false),
        ));
    }
}

/// Expands each word and splits the results into fields: quoted and literal
/// text is never split, expansion results are split at blanks, and empty
/// fields disappear. For words made only of inert parts the result is exactly
/// `spec_literal_argv`.
pub fn expand_words_with_splitting<H: HostInterface>(
    state: &mut ShellState,
    host: &mut H,
    words: &Vec<Word>,
    with_exec: bool,
) -> (r: Vec<String>)
    ensures
        spec_same_session(*old(state), *final(state)),
        spec_log_extends(old(host).log(), final(host).log()),
        spec_words_inert(words@) ==> r.deep_view() == spec_literal_argv(words@) && *final(state)
            == *old(state) && spec_same_host(*old(host), *final(host)),
        old(state).substitution_depth >= MAX_SUBSTITUTION_DEPTH ==> r.deep_view()
            == spec_blocked_argv(words@, old(state).env@) && *final(state) == *old(state)
            && spec_same_host(*old(host), *final(host)),
    decreases spec_depth_measure(state.substitution_depth), 0nat, 2nat,
{
    let mut out: Vec<String> = Vec::new();
    let mut i: usize = 0;
    proof {
        assert(words@.subrange(0, words@.len() as int) =~= words@);
        assert(out.deep_view() =~= Seq::<Seq<char>>::empty());
    }
    while i < words.len()
        invariant
            0 <= i <= words@.len(),
            spec_same_session(*old(state), *state),
            spec_log_extends(old(host).log(), host.log()),
            spec_depth_measure(state.substitution_depth) == spec_depth_measure(
                old(state).substitution_depth,
            ),
            spec_words_inert(words@) ==> out.deep_view() + spec_literal_argv(
                words@.subrange(i as int, words@.len() as int),
            ) == spec_literal_argv(words@) && *state == *old(state) && spec_same_host(
                *old(host),
                *host,
            ),
            old(state).substitution_depth >= MAX_SUBSTITUTION_DEPTH ==> out.deep_view()
                + spec_blocked_argv(
                words@.subrange(i as int, words@.len() as int),
                old(state).env@,
            ) == spec_blocked_argv(words@, old(state).env@) && *state == *old(state)
                && spec_same_host(*old(host), *host),
        decreases words@.len() - i,
    {
        proof {
            assert(words@.subrange(i as int, words@.len() as int).drop_first() =~= words@.subrange(
                i + 1,
                words@.len() as int,
            ));
            assert(words@.subrange(i as int, words@.len() as int)[0] == words@[i as int]);
        }
        let word = &words[i];
        let mut frags: Vec<Fragment> = Vec::new();
        let mut k: usize = 0;
        proof {
            assert(spec_frag_views(frags@) =~= word.parts@.subrange(0, 0).map_values(
                |p: WordPart| (spec_inert_text(p), false),
            ));
        }
        while k < word.parts.len()
            invariant
                0 <= k <= word.parts@.len(),
                word == &words@[i as int],
                0 <= i < words@.len(),
                spec_same_session(*old(state), *state),
                spec_log_extends(old(host).log(), host.log()),
                spec_depth_measure(state.substitution_depth) == spec_depth_measure(
                    old(state).substitution_depth,
                ),
                spec_words_inert(words@) ==> spec_frag_views(frags@)
                    == word.parts@.subrange(0, k as int).map_values(
                    |p: WordPart| (spec_inert_text(p), false),
                ) && *state == *old(state) && spec_same_host(*old(host), *host),
                old(state).substitution_depth >= MAX_SUBSTITUTION_DEPTH ==> spec_frag_views(frags@)
                    == word.parts@.subrange(0, k as int).map_values(
                    |p: WordPart| (spec_part_text_blocked(p, old(state).env@), !spec_part_inert(p)),
                ) && *state == *old(state) && spec_same_host(*old(host), *host),
            decreases word.parts@.len() - k,
        {
            let splittable = is_splittable_part(&word.parts[k]);
            let text = expand_word_part(state, host, &word.parts[k], with_exec);
            let ghost prev_frags = frags@;
            frags.push(Fragment { text, splittable });
            k += 1;
            proof {
                if old(state).substitution_depth >= MAX_SUBSTITUTION_DEPTH {
                    let btarget = word.parts@.subrange(0, k as int).map_values(
                        |p: WordPart| (spec_part_text_blocked(p, old(state).env@), !spec_part_inert(
                            p,
                        )),
                    );
                    let bprev = word.parts@.subrange(0, k - 1).map_values(
                        |p: WordPart| (spec_part_text_blocked(p, old(state).env@), !spec_part_inert(
                            p,
                        )),
                    );
                    assert(spec_frag_views(frags@).len() == k);
                    assert(btarget.len() == k);
                    assert forall|j: int| 0 <= j < k implies spec_frag_views(frags@)[j]
                        == btarget[j] by {
                        assert(spec_frag_views(frags@)[j] == (frags@[j].text@, frags@[j].splittable));
                        assert(btarget[j] == (spec_part_text_blocked(
                            word.parts@[j],
                            old(state).env@,
                        ), !spec_part_inert(word.parts@[j])));
                        if j < k - 1 {
                            assert(frags@[j] == prev_frags[j]);
                            assert(spec_frag_views(prev_frags)[j] == (prev_frags[j].text@,
                                prev_frags[j].splittable));
                            assert(spec_frag_views(prev_frags)[j] == bprev[j]);
                        }
                    }
                    assert(spec_frag_views(frags@) =~= btarget);
                }
                if spec_words_inert(words@) {
                    let target = word.parts@.subrange(0, k as int).map_values(
                        |p: WordPart| (spec_inert_text(p), false),
                    );
                    let prev_target = word.parts@.subrange(0, k - 1).map_values(
                        |p: WordPart| (spec_inert_text(p), false),
                    );
                    assert(spec_word_inert(words@[i as int].parts@));
                    assert(spec_part_inert(word.parts@[k - 1]));
                    assert(frags@[k - 1].text@ == spec_inert_text(word.parts@[k - 1]));
                    assert(frags@[k - 1].splittable == false);
                    assert(spec_frag_views(frags@).len() == k);
                    assert(target.len() == k);
                    assert forall|j: int| 0 <= j < k implies spec_frag_views(frags@)[j]
                        == target[j] by {
                        assert(spec_frag_views(frags@)[j] == (frags@[j].text@, frags@[j].splittable));
                        assert(target[j] == (spec_inert_text(word.parts@[j]), false));
                        if j < k - 1 {
                            assert(frags@[j] == prev_frags[j]);
                            assert(spec_frag_views(prev_frags)[j] == (prev_frags[j].text@,
                                prev_frags[j].splittable));
                            assert(spec_frag_views(prev_frags)[j] == prev_target[j]);
                            assert(prev_target[j] == (spec_inert_text(word.parts@[j]), false));
                        }
                    }
                    assert(spec_frag_views(frags@) =~= target);
                }
            }
        }
        let fields = split_fragments(&frags);
        let ghost prev = out.deep_view();
        let mut f: usize = 0;
        while f < fields.len()
            invariant
                0 <= f <= fields@.len(),
                out.deep_view() == prev + fields.deep_view().subrange(0, f as int),
            decreases fields@.len() - f,
        {
            let ghost cur = out.deep_view();
            out.push(fields[f].clone());
            f += 1;
            proof {
                assert(out.deep_view() =~= cur.push(fields@[f - 1]@));
                assert(fields.deep_view()[f - 1] == fields@[f - 1]@);
                assert(out.deep_view() =~= prev + fields.deep_view().subrange(0, f as int));
            }
        }
        i += 1;
        proof {
            assert(prev + fields.deep_view().subrange(0, 0) =~= prev);
            assert(fields.deep_view().subrange(0, fields@.len() as int) =~= fields.deep_view());
            if spec_words_inert(words@) {
                assert(spec_word_inert(words@[i - 1].parts@));
                assert(word.parts@.subrange(0, word.parts@.len() as int) =~= word.parts@);
                let views = word.parts@.map_values(|p: WordPart| (spec_inert_text(p), false));
                assert(spec_views_inert(views));
                lemma_split_fragments_inert(views);
                lemma_concat_texts_of_parts(word.parts@);
                assert(out.deep_view() + spec_literal_argv(
                    words@.subrange(i as int, words@.len() as int),
                ) =~= spec_literal_argv(words@));
            }
            if old(state).substitution_depth >= MAX_SUBSTITUTION_DEPTH {
                assert(word.parts@.subrange(0, word.parts@.len() as int) =~= word.parts@);
                assert(out.deep_view() + spec_blocked_argv(
                    words@.subrange(i as int, words@.len() as int),
                    old(state).env@,
                ) =~= spec_blocked_argv(words@, old(state).env@));
            }
        }
    }
    proof {
        assert(words@.subrange(words@.len() as int, words@.len() as int)
            =~= Seq::<Word>::empty());
        if spec_words_inert(words@) {
            assert(out.deep_view() + Seq::<Seq<char>>::empty() =~= out.deep_view());
        }
        if old(state).substitution_depth >= MAX_SUBSTITUTION_DEPTH {
            assert(out.deep_view() + Seq::<Seq<char>>::empty() =~= out.deep_view());
        }
    }
    out
}

/// A token that the stages after field splitting pass through unchanged:
/// nothing for brace expansion to open, no glob characters, and none of the
/// private sentinel characters.
pub open spec fn spec_plain_token(t: Seq<char>) -> bool {
    &&& !crate::braces::spec_has_open_brace(t)
    &&& !spec_has_glob_char(t)
    &&& forall|i: int| 0 <= i < t.len() ==> t[i] != '\u{e000}' && t[i] != '\u{e001}'
}

pub open spec fn spec_plain_argv(ts: Seq<Seq<char>>) -> bool {
    forall|j: int| 0 <= j < ts.len() ==> spec_plain_token(#[trigger] ts[j])
}

/// The whole expansion pipeline for one command's words: expansion with field
/// splitting, then brace expansion, sentinel restoration and glob expansion.
/// An empty result means there is no program to run — a normal outcome.
/// Words of inert parts whose fields are plain tokens expand to exactly
/// `spec_literal_argv`, with the host untouched.
pub fn expand_argv<H: HostInterface>(
    state: &mut ShellState,
    host: &mut H,
    words: &Vec<Word>,
    with_exec: bool,
) -> (r: Vec<String>)
    ensures
        spec_same_session(*old(state), *final(state)),
        spec_log_extends(old(host).log(), final(host).log()),
        (spec_words_inert(words@) && spec_plain_argv(spec_literal_argv(words@))) ==> (
        r.deep_view() == spec_literal_argv(words@) && *final(state) == *old(state)
            && spec_same_host(*old(host), *final(host))),
    decreases spec_depth_measure(state.substitution_depth), 0nat, 3nat,
{
    let expanded = expand_words_with_splitting(state, host, words, with_exec);
    let braced = crate::braces::expand_braces(&expanded);
    let restored = crate::braces::restore_brace_sentinels(&braced);
    let globbed = expand_globs(host, &restored);
    proof {
        if spec_words_inert(words@) && spec_plain_argv(spec_literal_argv(words@)) {
            let argv = spec_literal_argv(words@);
            assert(expanded.deep_view() == argv);
            assert forall|j: int|
                0 <= j < expanded@.len() implies !crate::braces::spec_has_open_brace(
                #[trigger] expanded.deep_view()[j],
            ) by {
                assert(spec_plain_token(argv[j]));
            }
            assert(braced.deep_view() == expanded.deep_view());
            assert forall|j: int|
                0 <= j < restored.deep_view().len() implies (#[trigger] restored.deep_view()[j])
                == braced.deep_view()[j] by {
                assert(restored.deep_view()[j] == crate::braces::spec_brace_restore(
                    braced.deep_view()[j],
                ));
                assert(spec_plain_token(argv[j]));
                assert(crate::braces::spec_brace_restore(braced.deep_view()[j])
                    =~= braced.deep_view()[j]);
            }
            assert(restored.deep_view() =~= braced.deep_view());
            assert forall|j: int|
                0 <= j < restored@.len() implies !spec_has_glob_char(
                #[trigger] restored.deep_view()[j],
            ) by {
                assert(spec_plain_token(argv[j]));
            }
            assert(globbed.deep_view() == restored.deep_view());
        }
    }
    globbed
}

/// Whether the token holds a character the glob expander reacts to.
pub open spec fn spec_has_glob_char(s: Seq<char>) -> bool {
    exists|i: int| 0 <= i < s.len() && (s[i] == '*' || s[i] == '?' || s[i] == '[')
}

fn has_glob_char(s: &str) -> (r: bool)
    ensures
        r == spec_has_glob_char(s@),
{
    let n = s.unicode_len();
    let mut i: usize = 0;
    while i < n
        invariant
            0 <= i <= n,
            n == s@.len(),
            forall|j: int| 0 <= j < i ==> !(s@[j] == '*' || s@[j] == '?' || s@[j] == '['),
        decreases n - i,
    {
        let c = s.get_char(i);
        if c == '*' || c == '?' || c == '[' {
            return true;
        }
        i += 1;
    }
    false
}

/// Glob expansion over the argv tokens. A token without glob characters
/// passes through unchanged; one with them is handed to the host, whose
/// matches replace it — an unmatched glob token is kept literally, an
/// explicit policy choice. Tokens without glob characters never reach the
/// host.
pub fn expand_globs<H: HostInterface>(host: &mut H, tokens: &Vec<String>) -> (r: Vec<String>)
    ensures
        final(host).files() == old(host).files(),
        spec_log_extends(old(host).log(), final(host).log()),
        (forall|j: int|
            0 <= j < tokens@.len() ==> !spec_has_glob_char(#[trigger] tokens.deep_view()[j]))
            ==> r.deep_view() == tokens.deep_view() && final(host).log() == old(host).log(),
    decreases tokens@.len(),
{
    let mut out: Vec<String> = Vec::new();
    let mut i: usize = 0;
    proof {
        assert(out.deep_view() =~= Seq::<Seq<char>>::empty());
        assert(tokens.deep_view().subrange(0, 0) =~= Seq::<Seq<char>>::empty());
    }
    while i < tokens.len()
        invariant
            0 <= i <= tokens@.len(),
            host.files() == old(host).files(),
            spec_log_extends(old(host).log(), host.log()),
            (forall|j: int|
                0 <= j < i ==> !spec_has_glob_char(#[trigger] tokens.deep_view()[j]))
                ==> out.deep_view() == tokens.deep_view().subrange(0, i as int) && host.log()
                == old(host).log(),
        decreases tokens@.len() - i,
    {
        if has_glob_char(tokens[i].as_str()) {
            let matches = host.expand_glob(tokens[i].as_str());
            if matches.len() == 0 {
                out.push(tokens[i].clone());
            } else {
                let mut k: usize = 0;
                while k < matches.len()
                    invariant
                        0 <= k <= matches@.len(),
                        host.files() == old(host).files(),
                    decreases matches@.len() - k,
                {
                    out.push(matches[k].clone());
                    k += 1;
                }
            }
            proof {
                assert(spec_has_glob_char(tokens.deep_view()[i as int])) by {
                    assert(tokens.deep_view()[i as int] == tokens@[i as int]@);
                }
            }
        } else {
            let ghost cur = out.deep_view();
            out.push(tokens[i].clone());
            proof {
                assert(out.deep_view() =~= cur.push(tokens@[i as int]@));
                assert(tokens.deep_view()[i as int] == tokens@[i as int]@);
            }
        }
        i += 1;
        proof {
            if forall|j: int|
                0 <= j < i ==> !spec_has_glob_char(#[trigger] tokens.deep_view()[j]) {
                assert(!spec_has_glob_char(tokens.deep_view()[i - 1]));
                assert(out.deep_view() =~= tokens.deep_view().subrange(0, i as int));
            }
        }
    }
    proof {
        assert(tokens.deep_view().subrange(0, tokens@.len() as int) =~= tokens.deep_view());
    }
    out
}

} // verus!
