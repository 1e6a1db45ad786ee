//! A byte-level BPE tokenizer: added tokens matched first, then pre-tokenization, byte
//! mapping, pairwise merges and vocabulary lookup.
pub mod bpe;
pub mod pretok;
pub mod unicode;

use self::bpe::{best_pair, bpe, bpe_spec, byte_char, byte_table, mapped, merge_pairs, pair_key, singles, views};
use self::pretok::{lemma_piece_end, piece_end, pieces_from, pre_tokenize, pre_tokenize_spec, string_of};
use self::unicode::{is_space, to_chars, whitespace};
use crate::text::str_eq;
use vstd::hash_map::StringHashMap;
use vstd::prelude::*;
use vstd::utf8::encode_utf8;

verus! {

/// One merge rule as a tokenizer file lists it: a pair of symbols, or the two symbols
/// already joined by a space.
pub enum MergeRule {
    Pair(String, String),
    Joined(String),
}

/// The key a merge rule is ranked under.
pub open spec fn merge_key(m: MergeRule) -> Seq<char> {
    match m {
        MergeRule::Pair(a, b) => pair_key(a@, b@),
        MergeRule::Joined(s) => s@,
    }
}

/// The vocabulary built from (token, id) entries; a later entry for the same token wins.
pub open spec fn vocab_map(v: Seq<(String, i64)>) -> Map<Seq<char>, i64>
    decreases v.len(),
{
    if v.len() == 0 {
        Map::empty()
    } else {
        vocab_map(v.drop_last()).insert(v.last().0@, v.last().1)
    }
}

/// Each merge rule's rank is its position in the list; a later duplicate wins.
pub open spec fn rank_map(m: Seq<MergeRule>) -> Map<Seq<char>, i64>
    decreases m.len(),
{
    if m.len() == 0 {
        Map::empty()
    } else {
        rank_map(m.drop_last()).insert(merge_key(m.last()), (m.len() - 1) as i64)
    }
}

/// Added tokens as (content, id, strip whitespace before it).
pub open spec fn added_view(a: Seq<(String, i64, bool)>) -> Seq<(Seq<char>, i64, bool)> {
    a.map_values(|x: (String, i64, bool)| (x.0@, x.1, x.2))
}

/// The id of the first added token whose content is `name`.
pub open spec fn first_id(a: Seq<(Seq<char>, i64, bool)>, name: Seq<char>) -> Option<i64>
    decreases a.len(),
{
    if a.len() == 0 {
        None
    } else if a[0].0 == name {
        Some(a[0].1)
    } else {
        first_id(a.subrange(1, a.len() as int), name)
    }
}

/// What encoding reads of a tokenizer.
pub struct TokenizerView {
    pub vocab: Map<Seq<char>, i64>,
    pub ranks: Map<Seq<char>, i64>,
    pub added: Seq<(Seq<char>, i64, bool)>,
}

/// The tables a tokenizer encodes with.
pub struct Tables {
    vocab: StringHashMap<i64>,
    ranks: StringHashMap<i64>,
    added: Vec<(String, i64, bool)>,
    added_chars: Vec<Vec<char>>,
    byte_map: Vec<char>,
}

impl View for Tables {
    type V = TokenizerView;

    closed spec fn view(&self) -> TokenizerView {
        TokenizerView { vocab: self.vocab@, ranks: self.ranks@, added: added_view(self.added@) }
    }
}

impl Tables {
    /// The byte table and the added tokens' characters agree with what they cache.
    #[verifier::type_invariant]
    spec fn wf(&self) -> bool {
        &&& self.byte_map@.len() == 256
        &&& forall|b: int| 0 <= b < 256 ==> #[trigger] self.byte_map@[b] == byte_char(b as u8)
        &&& self.added_chars@.len() == self.added@.len()
        &&& forall|k: int| 0 <= k < self.added@.len() ==> #[trigger] self.added_chars@[k]@ == self.added@[k].0@
    }
}

pub struct Tokenizer {
    pub tables: Tables,
    pub cls: i64,
    pub sep: i64,
    pub mask: i64,
    pub pad: i64,
    pub unk: i64,
}

impl View for Tokenizer {
    type V = TokenizerView;

    open spec fn view(&self) -> TokenizerView {
        self.tables@
    }
}

/// The id of a vocabulary entry, or `unk` for a symbol the vocabulary lacks.
pub open spec fn token_id(t: TokenizerView, unk: i64, s: Seq<char>) -> i64 {
    if t.vocab.contains_key(s) {
        t.vocab[s]
    } else {
        unk
    }
}

/// The ids of one pre-token: its bytes mapped to characters, merged, and looked up.
pub open spec fn piece_ids(t: TokenizerView, unk: i64, p: Seq<char>) -> Seq<i64> {
    bpe_spec(t.ranks, singles(mapped(p))).map_values(|s: Seq<char>| token_id(t, unk, s))
}

pub open spec fn pieces_ids(t: TokenizerView, unk: i64, ps: Seq<Seq<char>>) -> Seq<i64>
    decreases ps.len(),
{
    if ps.len() == 0 {
        Seq::empty()
    } else {
        pieces_ids(t, unk, ps.drop_last()) + piece_ids(t, unk, ps.last())
    }
}

/// The ids of a stretch of text that holds no added token.
pub open spec fn chunk_ids(t: TokenizerView, unk: i64, text: Seq<char>) -> Seq<i64> {
    pieces_ids(t, unk, pre_tokenize_spec(text))
}

/// Whether `content` is non-empty and occurs in `ch` at position `i`.
pub open spec fn added_at(content: Seq<char>, ch: Seq<char>, i: int) -> bool {
    &&& content.len() > 0
    &&& i + content.len() <= ch.len()
    &&& ch.subrange(i, i + content.len()) == content
}

/// The length of a string in UTF-8 bytes.
pub open spec fn byte_len(s: Seq<char>) -> int {
    encode_utf8(s).len() as int
}

/// Among the first `k` added tokens, the one that occurs at `i` and is longest in bytes,
/// the earliest listed among equally long ones.
pub open spec fn best_added(a: Seq<(Seq<char>, i64, bool)>, ch: Seq<char>, i: int, k: int) -> Option<int>
    decreases k,
{
    if k <= 0 {
        None
    } else {
        let b = best_added(a, ch, i, k - 1);
        if added_at(a[k - 1].0, ch, i) && (match b {
            None => true,
            Some(j) => byte_len(a[k - 1].0) > byte_len(a[j].0),
        }) {
            Some(k - 1)
        } else {
            b
        }
    }
}

pub proof fn lemma_best_added(a: Seq<(Seq<char>, i64, bool)>, ch: Seq<char>, i: int, k: int)
    ensures
        best_added(a, ch, i, k) matches Some(j) ==> 0 <= j < k && added_at(a[j].0, ch, i),
    decreases k,
{
    if k > 0 {
        lemma_best_added(a, ch, i, k - 1);
    }
}

/// `s` without its trailing whitespace.
pub open spec fn trim_end_ws(s: Seq<char>) -> Seq<char>
    decreases s.len(),
{
    if s.len() > 0 && whitespace(s.last()) {
        trim_end_ws(s.drop_last())
    } else {
        s
    }
}

/// The ids of `ch` from position `i` on, with `buf` the text read since the last added
/// token: at each position the best added token that occurs there ends the pending text
/// (stripped of trailing whitespace when the token asks for it) and gives its own id;
/// otherwise the character joins the pending text.
pub open spec fn encode_at(t: TokenizerView, unk: i64, ch: Seq<char>, i: int, buf: Seq<char>) -> Seq<i64>
    decreases ch.len() - i,
{
    if i >= ch.len() {
        chunk_ids(t, unk, buf)
    } else {
        match best_added(t.added, ch, i, t.added.len() as int) {
            Some(k) => {
                proof {
                    lemma_best_added(t.added, ch, i, t.added.len() as int);
                }
                let before = if t.added[k].2 {
                    trim_end_ws(buf)
                } else {
                    buf
                };
                chunk_ids(t, unk, before) + seq![t.added[k].1] + encode_at(
                    t,
                    unk,
                    ch,
                    i + t.added[k].0.len(),
                    Seq::empty(),
                )
            },
            None => encode_at(t, unk, ch, i + 1, buf.push(ch[i])),
        }
    }
}

/// The ids of `text` without the [CLS] and [SEP] ids around them.
pub open spec fn encode_spec(t: TokenizerView, unk: i64, text: Seq<char>) -> Seq<i64> {
    encode_at(t, unk, text, 0, Seq::empty())
}

proof fn lemma_merge_keeps_some(s: Seq<Seq<char>>, a: Seq<char>, b: Seq<char>)
    requires
        s.len() > 0,
    ensures
        merge_pairs(s, a, b).len() > 0,
{
}

proof fn lemma_bpe_keeps_some(ranks: Map<Seq<char>, i64>, syms: Seq<Seq<char>>)
    requires
        syms.len() > 0,
    ensures
        bpe_spec(ranks, syms).len() > 0,
    decreases syms.len(),
{
    if syms.len() >= 2 {
        match best_pair(ranks, syms, syms.len() - 1) {
            None => {},
            Some((_, at)) => {
                let next = merge_pairs(syms, syms[at], syms[at + 1]);
                lemma_merge_keeps_some(syms, syms[at], syms[at + 1]);
                if next.len() < syms.len() && next.len() != 1 {
                    lemma_bpe_keeps_some(ranks, next);
                }
            },
        }
    }
}

proof fn lemma_piece_ids_some(t: TokenizerView, unk: i64, p: Seq<char>)
    requires
        p.len() > 0,
    ensures
        piece_ids(t, unk, p).len() > 0,
{
    assert(encode_utf8(p).len() > 0);
    lemma_bpe_keeps_some(t.ranks, singles(mapped(p)));
}

proof fn lemma_pieces_from_some(ch: Seq<char>, i: int)
    requires
        0 <= i < ch.len(),
    ensures
        pieces_from(ch, i).len() > 0,
        forall|k: int| 0 <= k < pieces_from(ch, i).len() ==> #[trigger] pieces_from(ch, i)[k].len() > 0,
    decreases ch.len() - i,
{
    lemma_piece_end(ch, i);
    let e = piece_end(ch, i);
    if e < ch.len() {
        lemma_pieces_from_some(ch, e);
    }
    let ps = pieces_from(ch, i);
    assert(ps == seq![ch.subrange(i, e)] + pieces_from(ch, e));
    assert forall|k: int| 0 <= k < ps.len() implies #[trigger] ps[k].len() > 0 by {
        if k > 0 {
            assert(ps[k] == pieces_from(ch, e)[k - 1]);
        }
    }
}

proof fn lemma_chunk_ids_some(t: TokenizerView, unk: i64, text: Seq<char>)
    ensures
        chunk_ids(t, unk, text).len() > 0 <==> text.len() > 0,
{
    let ps = pre_tokenize_spec(text);
    if text.len() > 0 {
        lemma_pieces_from_some(text, 0);
        lemma_piece_ids_some(t, unk, ps.last());
        assert(ps.last() == ps[ps.len() - 1]);
    } else {
        assert(ps.len() == 0);
    }
}

proof fn lemma_encode_at_some(t: TokenizerView, unk: i64, ch: Seq<char>, i: int, buf: Seq<char>)
    requires
        0 <= i,
        i < ch.len() || buf.len() > 0,
    ensures
        encode_at(t, unk, ch, i, buf).len() > 0,
    decreases ch.len() - i,
{
    if i >= ch.len() {
        lemma_chunk_ids_some(t, unk, buf);
    } else {
        match best_added(t.added, ch, i, t.added.len() as int) {
            Some(k) => {},
            None => {
                lemma_encode_at_some(t, unk, ch, i + 1, buf.push(ch[i]));
            },
        }
    }
}

/// Encoding without the [CLS] and [SEP] ids gives no id exactly when the text is empty.
pub proof fn law_encoding_empty_only_for_empty_text(tok: Tokenizer, text: Seq<char>)
    ensures
        encode_spec(tok@, tok.unk, text).len() == 0 <==> text.len() == 0,
{
    if text.len() > 0 {
        lemma_encode_at_some(tok@, tok.unk, text, 0, Seq::empty());
    } else {
        lemma_chunk_ids_some(tok@, tok.unk, Seq::empty());
    }
}

impl Tokenizer {
    /// The ids of `text`, which holds no added token, appended to `out`.
    fn encode_chunk(&self, text: &str, out: &mut Vec<i64>)
        ensures
            final(out)@ == old(out)@ + chunk_ids(self@, self.unk, text@),
    {
        proof {
            use_type_invariant(&self.tables);
        }
        let pieces = pre_tokenize(text);
        let ghost ps = pre_tokenize_spec(text@);
        assert(views(pieces@) == ps);
        let mut p: usize = 0;
        while p < pieces.len()
            invariant
                p <= pieces@.len(),
                self.tables.wf(),
                views(pieces@) == ps,
                out@ == old(out)@ + pieces_ids(self@, self.unk, ps.take(p as int)),
            decreases pieces.len() - p,
        {
            let bytes = pieces[p].as_str().as_bytes();
            let ghost piece = pieces@[p as int]@;
            assert(piece == ps[p as int]);
            let mut word: Vec<char> = Vec::new();
            let mut q: usize = 0;
            while q < bytes.len()
                invariant
                    q <= bytes@.len(),
                    bytes@ == encode_utf8(piece),
                    self.tables.wf(),
                    word@ == bytes@.take(q as int).map_values(|b: u8| byte_char(b)),
                decreases bytes.len() - q,
            {
                let c = self.tables.byte_map[bytes[q] as usize];
                word.push(c);
                q = q + 1;
                assert(word@ =~= bytes@.take(q as int).map_values(|b: u8| byte_char(b)));
            }
            assert(bytes@.take(bytes@.len() as int) == bytes@);
            assert(word@ == mapped(piece));
            let syms = bpe(&self.tables.ranks, &word);
            let ghost before = out@;
            let mut k: usize = 0;
            while k < syms.len()
                invariant
                    k <= syms@.len(),
                    views(syms@) == bpe_spec(self@.ranks, singles(word@)),
                    out@ == before + views(syms@).take(k as int).map_values(|s: Seq<char>| token_id(self@, self.unk, s)),
                decreases syms.len() - k,
            {
                let id = match self.tables.vocab.get(syms[k].as_str()) {
                    Some(v) => *v,
                    None => self.unk,
                };
                assert(id == token_id(self@, self.unk, views(syms@)[k as int]));
                out.push(id);
                k = k + 1;
                assert(out@ =~= before + views(syms@).take(k as int).map_values(|s: Seq<char>| token_id(self@, self.unk, s)));
            }
            proof {
                assert(views(syms@).take(syms@.len() as int) == views(syms@));
                assert(ps.take(p + 1).drop_last() == ps.take(p as int));
                assert(out@ =~= old(out)@ + pieces_ids(self@, self.unk, ps.take(p + 1)));
            }
            p = p + 1;
        }
        assert(ps.take(ps.len() as int) == ps);
    }

    /// The index of the best added token at position `i` of `ch`.
    fn added_match(&self, ch: &Vec<char>, i: usize) -> (r: Option<usize>)
        requires
            i < ch@.len(),
        ensures
            match r {
                Some(k) => best_added(self@.added, ch@, i as int, self@.added.len() as int) == Some(k as int),
                None => best_added(self@.added, ch@, i as int, self@.added.len() as int) is None,
            },
    {
        proof {
            use_type_invariant(&self.tables);
        }
        let ghost a = self@.added;
        let mut best: Option<usize> = None;
        let mut best_len: usize = 0;
        let mut k: usize = 0;
        while k < self.tables.added.len()
            invariant
                k <= self.tables.added@.len(),
                self.tables.wf(),
                i < ch@.len(),
                a == self@.added,
                a.len() == self.tables.added@.len(),
                match best {
                    Some(j) => j < k && best_added(a, ch@, i as int, k as int) == Some(j as int) && best_len == byte_len(a[j as int].0),
                    None => best_added(a, ch@, i as int, k as int) is None,
                },
            decreases self.tables.added.len() - k,
        {
            let content = &self.tables.added_chars[k];
            let n = content.len();
            let mut hit = n > 0 && n <= ch.len() - i;
            let mut x: usize = 0;
            while hit && x < n
                invariant
                    x <= n,
                    n == content@.len(),
                    i < ch@.len(),
                    hit ==> i + n <= ch.len() && n > 0,
                    hit ==> forall|y: int| 0 <= y < x ==> ch@[i + y] == content@[y],
                    !hit ==> !added_at(content@, ch@, i as int),
                decreases n - x + if hit {
                    1int
                } else {
                    0int
                },
            {
                if ch[i + x] != content[x] {
                    assert(ch@.subrange(i as int, i + n)[x as int] != content@[x as int]);
                    hit = false;
                } else {
                    x = x + 1;
                }
            }
            proof {
                if hit {
                    assert(ch@.subrange(i as int, i + n) =~= content@);
                }
                assert(a[k as int] == (self.tables.added@[k as int].0@, self.tables.added@[k as int].1, self.tables.added@[k as int].2));
                assert(content@ == a[k as int].0);
            }
            assert(hit == added_at(a[k as int].0, ch@, i as int));
            if hit {
                let blen = self.tables.added[k].0.as_str().as_bytes().len();
                assert(blen == byte_len(a[k as int].0));
                let better = match best {
                    None => true,
                    Some(_) => blen > best_len,
                };
                if better {
                    best = Some(k);
                    best_len = blen;
                }
            }
            k = k + 1;
        }
        best
    }

    /// The token ids of `text`: added tokens matched first, the text between them
    /// pre-tokenized and merged; with [CLS] before them and [SEP] after them when asked.
    pub fn encode(&self, text: &str, add_special_tokens: bool) -> (r: Vec<i64>)
        ensures
            r@ == (if add_special_tokens {
                seq![self.cls] + encode_spec(self@, self.unk, text@) + seq![self.sep]
            } else {
                encode_spec(self@, self.unk, text@)
            }),
    {
        let ch = to_chars(text);
        let ghost t = self@;
        let mut ids: Vec<i64> = Vec::new();
        let mut buf: Vec<char> = Vec::new();
        let mut i: usize = 0;
        while i < ch.len()
            invariant
                i <= ch@.len(),
                ch@ == text@,
                t == self@,
                ids@ + encode_at(t, self.unk, ch@, i as int, buf@) == encode_spec(t, self.unk, text@),
            decreases ch.len() - i,
        {
            match self.added_match(&ch, i) {
                Some(k) => {
                    proof {
                        use_type_invariant(&self.tables);
                        lemma_best_added(t.added, ch@, i as int, t.added.len() as int);
                    }
                    let mut m: usize = buf.len();
                    assert(buf@.take(m as int) == buf@);
                    if self.tables.added[k].2 {
                        while m > 0 && is_space(buf[m - 1])
                            invariant
                                m <= buf@.len(),
                                trim_end_ws(buf@.take(m as int)) == trim_end_ws(buf@),
                            decreases m,
                        {
                            assert(buf@.take(m as int).drop_last() == buf@.take(m - 1));
                            m = m - 1;
                        }
                    }
                    let chunk = string_of(&buf, 0, m);
                    proof {
                        let before = if t.added[k as int].2 { trim_end_ws(buf@) } else { buf@ };
                        assert(chunk@ == before);
                        assert(encode_at(t, self.unk, ch@, i as int, buf@) == chunk_ids(t, self.unk, before) + seq![t.added[k as int].1]
                            + encode_at(t, self.unk, ch@, i + t.added[k as int].0.len(), Seq::empty()));
                    }
                    self.encode_chunk(chunk.as_str(), &mut ids);
                    ids.push(self.tables.added[k].1);
                    buf = Vec::new();
                    i = i + self.tables.added_chars[k].len();
                    assert(ids@ + encode_at(t, self.unk, ch@, i as int, buf@) == encode_spec(t, self.unk, text@));
                },
                None => {
                    buf.push(ch[i]);
                    i = i + 1;
                },
            }
        }
        let chunk = string_of(&buf, 0, buf.len());
        assert(chunk@ == buf@);
        self.encode_chunk(chunk.as_str(), &mut ids);
        assert(ids@ == encode_spec(t, self.unk, text@));
        if add_special_tokens {
            let mut r: Vec<i64> = Vec::new();
            r.push(self.cls);
            r.append(&mut ids);
            r.push(self.sep);
            r
        } else {
            ids
        }
    }

    /// Builds a tokenizer from its vocabulary, merge rules (ranked by position) and added
    /// tokens; `None` when one of [CLS], [SEP], [MASK], [PAD] and [UNK] is not an added token.
    pub fn new(vocab: Vec<(String, i64)>, merges: Vec<MergeRule>, added: Vec<(String, i64, bool)>) -> (r: Option<Tokenizer>)
        requires
            merges@.len() <= i64::MAX,
        ensures
            r is Some <==> {
                &&& first_id(added_view(added@), "[CLS]"@) is Some
                &&& first_id(added_view(added@), "[SEP]"@) is Some
                &&& first_id(added_view(added@), "[MASK]"@) is Some
                &&& first_id(added_view(added@), "[PAD]"@) is Some
                &&& first_id(added_view(added@), "[UNK]"@) is Some
            },
            r matches Some(t) ==> {
                &&& t@.vocab == vocab_map(vocab@)
                &&& t@.ranks == rank_map(merges@)
                &&& t@.added == added_view(added@)
                &&& first_id(added_view(added@), "[CLS]"@) == Some(t.cls)
                &&& first_id(added_view(added@), "[SEP]"@) == Some(t.sep)
                &&& first_id(added_view(added@), "[MASK]"@) == Some(t.mask)
                &&& first_id(added_view(added@), "[PAD]"@) == Some(t.pad)
                &&& first_id(added_view(added@), "[UNK]"@) == Some(t.unk)
            },
    {
        let mut vmap: StringHashMap<i64> = StringHashMap::new();
        let mut i: usize = 0;
        while i < vocab.len()
            invariant
                i <= vocab@.len(),
                vmap@ == vocab_map(vocab@.take(i as int)),
            decreases vocab.len() - i,
        {
            vmap.insert(vocab[i].0.clone(), vocab[i].1);
            i = i + 1;
            assert(vocab@.take(i as int).drop_last() == vocab@.take(i - 1));
        }
        assert(vocab@.take(vocab@.len() as int) == vocab@);
        let mut rmap: StringHashMap<i64> = StringHashMap::new();
        let mut i: usize = 0;
        while i < merges.len()
            invariant
                i <= merges@.len() <= i64::MAX,
                rmap@ == rank_map(merges@.take(i as int)),
            decreases merges.len() - i,
        {
            let key = match &merges[i] {
                MergeRule::Pair(a, b) => {
                    let mut k = a.clone();
                    k.append(" ");
                    k.append(b.as_str());
                    proof {
                        reveal_strlit(" ");
                    }
                    k
                },
                MergeRule::Joined(j) => j.clone(),
            };
            assert(key@ == merge_key(merges@[i as int]));
            rmap.insert(key, i as i64);
            i = i + 1;
            assert(merges@.take(i as int).drop_last() == merges@.take(i - 1));
        }
        assert(merges@.take(merges@.len() as int) == merges@);
        let mut chars: Vec<Vec<char>> = Vec::new();
        let mut i: usize = 0;
        while i < added.len()
            invariant
                i <= added@.len(),
                chars@.len() == i,
                forall|k: int| 0 <= k < i ==> #[trigger] chars@[k]@ == added@[k].0@,
            decreases added.len() - i,
        {
            chars.push(to_chars(added[i].0.as_str()));
            i = i + 1;
        }
        let cls = first_added_id(&added, "[CLS]");
        let sep = first_added_id(&added, "[SEP]");
        let mask = first_added_id(&added, "[MASK]");
        let pad = first_added_id(&added, "[PAD]");
        let unk = first_added_id(&added, "[UNK]");
        match (cls, sep, mask, pad, unk) {
            (Some(cls), Some(sep), Some(mask), Some(pad), Some(unk)) => {
                let tables = Tables { vocab: vmap, ranks: rmap, added, added_chars: chars, byte_map: byte_table() };
                Some(Tokenizer { tables, cls, sep, mask, pad, unk })
            },
            _ => None,
        }
    }
}

/// The id of the first added token whose content is `name`.
fn first_added_id(added: &Vec<(String, i64, bool)>, name: &str) -> (r: Option<i64>)
    ensures
        r == first_id(added_view(added@), name@),
{
    let ghost a = added_view(added@);
    let mut k: usize = 0;
    assert(a.subrange(0, a.len() as int) == a);
    while k < added.len()
        invariant
            k <= added@.len(),
            a == added_view(added@),
            first_id(a, name@) == first_id(a.subrange(k as int, a.len() as int), name@),
        decreases added.len() - k,
    {
        let ghost rest = a.subrange(k as int, a.len() as int);
        assert(rest[0] == a[k as int]);
        assert(rest.subrange(1, rest.len() as int) == a.subrange(k + 1, a.len() as int));
        if str_eq(added[k].0.as_str(), name) {
            return Some(added[k].1);
        }
        k = k + 1;
    }
    None
}

} // verus!
