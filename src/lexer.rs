use vstd::prelude::*;

verus! {

/// Relies on `String::push`: the character is appended at the end.
pub assume_specification[ std::string::String::push ](s: &mut std::string::String, ch: char)
    ensures
        final(s)@ == old(s)@.push(ch),
;

/// Scanner state after a prefix of the source text.
pub struct LexState {
    pub done: Seq<Seq<char>>,
    pub cur: Seq<char>,
    pub escaped: bool,
    pub commented: bool,
}

pub open spec fn is_blank(c: char) -> bool {
    c == '\t' || c == ' ' || c == '\n' || c == '\r'
}

/// One character of input. An escaped character is taken literally (and dropped
/// inside a comment), `\` escapes the next one, `/` toggles comment mode, and a
/// blank closes the current token.
pub open spec fn lex_step(st: LexState, c: char) -> LexState {
    if st.escaped {
        if st.commented {
            LexState { escaped: false, ..st }
        } else {
            LexState { cur: st.cur.push(c), escaped: false, ..st }
        }
    } else if c == '\\' {
        LexState { escaped: true, ..st }
    } else if c == '/' {
        LexState { commented: !st.commented, ..st }
    } else if st.commented {
        st
    } else if is_blank(c) {
        if st.cur.len() > 0 {
            LexState { done: st.done.push(st.cur), cur: Seq::empty(), ..st }
        } else {
            st
        }
    } else {
        LexState { cur: st.cur.push(c), ..st }
    }
}

pub open spec fn lex_prefix(s: Seq<char>) -> LexState
    decreases s.len(),
{
    if s.len() == 0 {
        LexState { done: Seq::empty(), cur: Seq::empty(), escaped: false, commented: false }
    } else {
        lex_step(lex_prefix(s.drop_last()), s.last())
    }
}

/// The tokens of a source text: the closed tokens, then the last one unless empty.
pub open spec fn tokens_of(s: Seq<char>) -> Seq<Seq<char>> {
    let st = lex_prefix(s);
    if st.cur.len() > 0 {
        st.done.push(st.cur)
    } else {
        st.done
    }
}

pub open spec fn views(v: Seq<String>) -> Seq<Seq<char>> {
    v.map_values(|t: String| t@)
}

/// Splits source text into tokens on blanks, honouring `\` escapes and `/`
/// comment toggles. No token is empty.
pub fn tokenise(src: &str) -> (r: Vec<String>)
    ensures
        views(r@) == tokens_of(src@),
        forall|i: int| 0 <= i < r@.len() ==> #[trigger] r@[i]@.len() > 0,
{
    let n = src.unicode_len();
    let mut done: Vec<String> = Vec::new();
    let mut cur = String::new();
    let mut escaped = false;
    let mut commented = false;
    let mut i: usize = 0;
    while i < n
        invariant
            n == src@.len(),
            i <= n,
            ({
                let st = lex_prefix(src@.subrange(0, i as int));
                &&& views(done@) == st.done
                &&& cur@ == st.cur
                &&& escaped == st.escaped
                &&& commented == st.commented
            }),
            forall|k: int| 0 <= k < done@.len() ==> #[trigger] done@[k]@.len() > 0,
        decreases n - i,
    {
        let c = src.get_char(i);
        proof {
            let p = src@.subrange(0, i as int + 1);
            assert(p.drop_last() =~= src@.subrange(0, i as int));
        }
        if escaped {
            escaped = false;
            if !commented {
                cur.push(c);
            }
        } else if c == '\\' {
            escaped = true;
        } else if c == '/' {
            commented = !commented;
        } else if commented {
        } else if c == '\t' || c == ' ' || c == '\n' || c == '\r' {
            if cur.unicode_len() > 0 {
                let ghost before = done@;
                done.push(cur);
                cur = String::new();
                proof {
                    assert(views(done@) =~= views(before).push(done@.last()@));
                }
            }
        } else {
            cur.push(c);
        }
        i = i + 1;
    }
    proof {
        assert(src@.subrange(0, n as int) =~= src@);
    }
    if cur.unicode_len() > 0 {
        let ghost before = done@;
        done.push(cur);
        proof {
            assert(views(done@) =~= views(before).push(done@.last()@));
        }
    }
    done
}

} // verus!
