//! Parsing key-bind descriptions.
//!
//! A bind is written as dash-separated tokens, `Ctrl-Shift-MouseLeft`: every
//! token but the last names a modifier key, and the last names either a key
//! or — with the `Mouse` prefix — a mouse button. The library parses the
//! byte form of that grammar; whether a name denotes an actual key on the
//! keyboard is for the windowing layer, which owns the key list, to decide.

use vstd::prelude::*;

verus! {

/// The input does not follow the bind grammar.
#[derive(Clone, Copy, PartialEq, Eq, Structural, Debug)]
pub struct ParseError;

/// A key name, or a mouse-button name written with the `Mouse` prefix.
pub enum KeyOrButton {
    Key(Vec<u8>),
    Mouse(Vec<u8>),
}

/// A parsed bind: modifier key names, and the triggering key or button.
pub struct KeyBind {
    pub modifiers: Vec<Vec<u8>>,
    pub key: KeyOrButton,
}

/// Mathematical value of a [`KeyOrButton`].
pub enum KeyOrButtonView {
    Key(Seq<u8>),
    Mouse(Seq<u8>),
}

/// Mathematical value of a [`KeyBind`].
pub struct KeyBindView {
    pub modifiers: Seq<Seq<u8>>,
    pub key: KeyOrButtonView,
}

impl View for KeyOrButton {
    type V = KeyOrButtonView;

    open spec fn view(&self) -> KeyOrButtonView {
        match self {
            KeyOrButton::Key(name) => KeyOrButtonView::Key(name@),
            KeyOrButton::Mouse(name) => KeyOrButtonView::Mouse(name@),
        }
    }
}

impl View for KeyBind {
    type V = KeyBindView;

    open spec fn view(&self) -> KeyBindView {
        KeyBindView {
            modifiers: Seq::new(self.modifiers@.len(), |i: int| self.modifiers@[i]@),
            key: self.key@,
        }
    }
}

/// The dash separating tokens, `-`.
pub open spec fn sep_byte() -> u8 {
    0x2D
}

/// The five bytes of the `Mouse` prefix.
pub open spec fn mouse_prefix() -> Seq<u8> {
    seq![0x4Du8, 0x6Fu8, 0x75u8, 0x73u8, 0x65u8]
}

/// A byte string split at every dash; always at least one token.
pub open spec fn spec_split(s: Seq<u8>) -> Seq<Seq<u8>>
    decreases s.len(),
{
    if s.len() == 0 {
        seq![Seq::<u8>::empty()]
    } else if s[0] == sep_byte() {
        seq![Seq::<u8>::empty()] + spec_split(s.drop_first())
    } else {
        let rest = spec_split(s.drop_first());
        seq![seq![s[0]] + rest[0]] + rest.drop_first()
    }
}

/// Splitting never yields an empty token list.
pub proof fn lemma_split_len(s: Seq<u8>)
    ensures
        spec_split(s).len() >= 1,
    decreases s.len(),
{
    if s.len() > 0 {
        lemma_split_len(s.drop_first());
    }
}

/// Extending the input by one byte extends the split: a dash opens a new
/// empty token, any other byte lands on the last token.
pub proof fn lemma_split_snoc(s: Seq<u8>, b: u8)
    ensures
        b == sep_byte() ==> spec_split(s.push(b)) == spec_split(s).push(Seq::<u8>::empty()),
        b != sep_byte() ==> spec_split(s.push(b)) == spec_split(s).drop_last().push(
            spec_split(s).last().push(b),
        ),
    decreases s.len(),
{
    lemma_split_len(s);
    if s.len() == 0 {
        if b == sep_byte() {
            assert(s.push(b)[0] == b);
            assert(s.push(b).drop_first() =~= s);
            assert(spec_split(s.push(b)) =~= spec_split(s).push(Seq::<u8>::empty()));
        } else {
            assert(s.push(b)[0] == b);
            assert(s.push(b).drop_first() =~= s);
            assert(seq![b] + spec_split(s)[0] =~= Seq::<u8>::empty().push(b));
            assert(spec_split(s.push(b)) =~= spec_split(s).drop_last().push(
                spec_split(s).last().push(b),
            ));
        }
    } else {
        let t = s.drop_first();
        assert(s.push(b)[0] == s[0]);
        assert(s.push(b).drop_first() =~= t.push(b));
        lemma_split_snoc(t, b);
        lemma_split_len(t);
        if s[0] == sep_byte() {
            if b == sep_byte() {
                assert(spec_split(s.push(b)) =~= spec_split(s).push(Seq::<u8>::empty()));
            } else {
                assert((seq![Seq::<u8>::empty()] + spec_split(t)).last() == spec_split(t).last());
                assert(spec_split(s.push(b)) =~= spec_split(s).drop_last().push(
                    spec_split(s).last().push(b),
                ));
            }
        } else {
            let rest = spec_split(t);
            if b == sep_byte() {
                assert(spec_split(t.push(b)) == rest.push(Seq::<u8>::empty()));
                assert(rest.push(Seq::<u8>::empty())[0] == rest[0]);
                assert(rest.push(Seq::<u8>::empty()).drop_first() =~= rest.drop_first().push(
                    Seq::<u8>::empty(),
                ));
                assert(spec_split(s.push(b)) =~= spec_split(s).push(Seq::<u8>::empty()));
            } else {
                if rest.len() == 1 {
                    assert(spec_split(t.push(b))[0] == rest[0].push(b));
                    assert(spec_split(s.push(b)) =~= spec_split(s).drop_last().push(
                        spec_split(s).last().push(b),
                    ));
                } else {
                    assert(spec_split(t.push(b))[0] == rest[0]);
                    assert(spec_split(s.push(b)) =~= spec_split(s).drop_last().push(
                        spec_split(s).last().push(b),
                    ));
                }
            }
        }
    }
}

/// What a single token denotes: a key name, a mouse-button name, or (when
/// empty, or `Mouse` with nothing after it) nothing valid.
pub open spec fn spec_classify(t: Seq<u8>) -> Option<KeyOrButtonView> {
    if t.len() == 0 {
        None
    } else if t.len() >= 5 && t.take(5) == mouse_prefix() {
        if t.len() == 5 {
            None
        } else {
            Some(KeyOrButtonView::Mouse(t.skip(5)))
        }
    } else {
        Some(KeyOrButtonView::Key(t))
    }
}

/// What a whole bind string denotes: every token must classify, and every
/// token before the last must be a plain key (only the trigger may be a
/// mouse button).
pub open spec fn spec_parse_bind(s: Seq<u8>) -> Option<KeyBindView> {
    let toks = spec_split(s);
    let n = toks.len() as int;
    if spec_classify(toks[n - 1]) is None {
        None
    } else if exists|i: int|
        0 <= i < n - 1 && !(#[trigger] spec_classify(toks[i]) matches Some(
            KeyOrButtonView::Key(_),
        )) {
        None
    } else {
        Some(KeyBindView { modifiers: toks.take(n - 1), key: spec_classify(toks[n - 1])->0 })
    }
}

/// Classify one token.
pub fn classify(t: &Vec<u8>) -> (r: Option<KeyOrButton>)
    ensures
        match r {
            Some(k) => spec_classify(t@) == Some(k@),
            None => spec_classify(t@) is None,
        },
{
    if t.len() == 0 {
        return None;
    }
    let is_mouse: bool = t.len() >= 5 && t[0] == 0x4Du8 && t[1] == 0x6Fu8 && t[2] == 0x75u8 && t[3]
        == 0x73u8 && t[4] == 0x65u8;
    proof {
        if t@.len() >= 5 {
            assert((t@.take(5) == mouse_prefix()) == (t@[0] == 0x4Du8 && t@[1] == 0x6Fu8 && t@[2]
                == 0x75u8 && t@[3] == 0x73u8 && t@[4] == 0x65u8)) by {
                if t@[0] == 0x4Du8 && t@[1] == 0x6Fu8 && t@[2] == 0x75u8 && t@[3] == 0x73u8 && t@[4]
                    == 0x65u8 {
                    assert(t@.take(5) =~= mouse_prefix());
                } else {
                    assert(t@.take(5)[0] == t@[0] && t@.take(5)[1] == t@[1] && t@.take(5)[2]
                        == t@[2] && t@.take(5)[3] == t@[3] && t@.take(5)[4] == t@[4]);
                }
            }
        }
    }
    if is_mouse {
        if t.len() == 5 {
            return None;
        }
        let n: usize = t.len();
        let mut rest: Vec<u8> = Vec::new();
        let mut i: usize = 5;
        while i < n
            invariant
                5 <= i <= n,
                n == t@.len(),
                rest@ == t@.subrange(5, i as int),
            decreases n - i,
        {
            rest.push(t[i]);
            assert(rest@ =~= t@.subrange(5, i + 1));
            i = i + 1;
        }
        proof {
            assert(rest@ =~= t@.skip(5));
        }
        Some(KeyOrButton::Mouse(rest))
    } else {
        let n: usize = t.len();
        let mut name: Vec<u8> = Vec::new();
        let mut i: usize = 0;
        while i < n
            invariant
                i <= n,
                n == t@.len(),
                name@ == t@.take(i as int),
            decreases n - i,
        {
            name.push(t[i]);
            assert(name@ =~= t@.take(i + 1));
            i = i + 1;
        }
        proof {
            assert(name@ =~= t@);
        }
        Some(KeyOrButton::Key(name))
    }
}

/// Split a bind string at every dash.
pub fn split_tokens(s: &Vec<u8>) -> (r: Vec<Vec<u8>>)
    ensures
        Seq::new(r@.len(), |i: int| r@[i]@) == spec_split(s@),
        r@.len() >= 1,
{
    let n: usize = s.len();
    let mut done: Vec<Vec<u8>> = Vec::new();
    let mut cur: Vec<u8> = Vec::new();
    let mut i: usize = 0;
    while i < n
        invariant
            i <= n,
            n == s@.len(),
            spec_split(s@.take(i as int)) == Seq::new(done@.len(), |k: int| done@[k]@).push(cur@),
        decreases n - i,
    {
        let ghost pre_done = Seq::new(done@.len(), |k: int| done@[k]@);
        let ghost pre_cur = cur@;
        proof {
            assert(s@.take(i + 1) =~= s@.take(i as int).push(s@[i as int]));
            lemma_split_snoc(s@.take(i as int), s@[i as int]);
            lemma_split_len(s@.take(i as int));
        }
        let b = s[i];
        if b == 0x2Du8 {
            done.push(cur);
            cur = Vec::new();
            proof {
                let now_done = Seq::new(done@.len(), |k: int| done@[k]@);
                assert(now_done =~= pre_done.push(pre_cur));
                assert(spec_split(s@.take(i + 1)) =~= now_done.push(cur@));
            }
        } else {
            cur.push(b);
            proof {
                let prev = pre_done.push(pre_cur);
                assert(prev.drop_last() =~= pre_done);
                assert(prev.last() == pre_cur);
                assert(spec_split(s@.take(i + 1)) =~= pre_done.push(cur@));
                assert(pre_done =~= Seq::new(done@.len(), |k: int| done@[k]@));
            }
        }
        i = i + 1;
    }
    done.push(cur);
    proof {
        assert(s@.take(n as int) =~= s@);
        let final_views = Seq::new(done@.len(), |k: int| done@[k]@);
        lemma_split_len(s@);
        assert(final_views =~= spec_split(s@));
    }
    done
}

/// Parse a whole bind string. Exactly the strings of the bind grammar
/// parse, to exactly the tokens they are made of.
pub fn parse_key_bind(s: &Vec<u8>) -> (r: Result<KeyBind, ParseError>)
    ensures
        match r {
            Ok(kb) => spec_parse_bind(s@) == Some(kb@),
            Err(_) => spec_parse_bind(s@) is None,
        },
{
    let toks = split_tokens(s);
    let ghost tok_views = Seq::new(toks@.len(), |i: int| toks@[i]@);
    proof {
        assert(tok_views =~= spec_split(s@));
    }
    let n: usize = toks.len();
    let key: KeyOrButton = match classify(&toks[n - 1]) {
        Some(k) => k,
        None => {
            return Err(ParseError);
        },
    };
    let mut modifiers: Vec<Vec<u8>> = Vec::new();
    let mut i: usize = 0;
    while i < n - 1
        invariant
            i <= n - 1,
            n == toks@.len(),
            n >= 1,
            tok_views == Seq::new(toks@.len(), |k: int| toks@[k]@),
            tok_views == spec_split(s@),
            spec_classify(spec_split(s@)[n - 1]) == Some(key@),
            modifiers@.len() == i,
            forall|k: int|
                0 <= k < i ==> #[trigger] spec_classify(tok_views[k]) matches Some(
                    KeyOrButtonView::Key(_),
                ),
            forall|k: int| 0 <= k < i ==> #[trigger] modifiers@[k]@ == tok_views[k],
        decreases n - 1 - i,
    {
        match classify(&toks[i]) {
            Some(KeyOrButton::Key(name)) => {
                proof {
                    assert(toks@[i as int]@ == tok_views[i as int]);
                }
                modifiers.push(name);
            },
            _ => {
                proof {
                    let j = i as int;
                    assert(toks@[j]@ == tok_views[j]);
                    assert(!(spec_classify(spec_split(s@)[j]) matches Some(
                        KeyOrButtonView::Key(_),
                    )));
                }
                return Err(ParseError);
            },
        }
        i = i + 1;
    }
    let kb = KeyBind { modifiers, key };
    proof {
        assert(kb@.modifiers =~= tok_views.take(n - 1));
    }
    Ok(kb)
}

} // verus!
