//! Token filtering and ranked search results.
//!
//! Recognized text is filtered down to the tokens the catalog vocabulary
//! knows, at most four of them, before it is handed to the similarity
//! ranking.  The ranking itself scores every catalog entry outside the
//! library; this module selects the thirty best-scored identifiers and
//! renders the result rows the transport layer sends on.

use vstd::prelude::*;
use vstd::string::StrSliceExecFns;
use vstd::string::StringExecFns;

use crate::text::{char_is_whitespace, is_ws_char, lemma_run_end, lower_of, run_end, to_lowercase,
    ws_split_from, ws_tokens};

verus! {

/// The catalog vocabulary: the lower-cased words that occur in the catalog,
/// against which recognized tokens are checked.
pub struct TokenSet {
    pub tokens: Vec<String>,
}

/// Whether the word list `vocab` holds the word `t`.
pub open spec fn vocab_has(vocab: Seq<Seq<char>>, t: Seq<char>) -> bool {
    exists|i: int| 0 <= i < vocab.len() && vocab[i] == t
}

impl TokenSet {
    /// The words of the vocabulary, as character sequences.
    pub open spec fn views(self) -> Seq<Seq<char>> {
        self.tokens@.map_values(|s: String| s@)
    }

    pub fn new() -> (r: TokenSet)
        ensures
            r.views() =~= Seq::<Seq<char>>::empty(),
    {
        TokenSet { tokens: Vec::new() }
    }

    /// Add one word.
    pub fn insert(&mut self, token: String)
        ensures
            final(self).views() =~= old(self).views().push(token@),
    {
        self.tokens.push(token);
    }

    /// Whether the vocabulary holds the word.
    pub fn contains(&self, token: &String) -> (r: bool)
        ensures
            r == vocab_has(self.views(), token@),
    {
        let n: usize = self.tokens.len();
        let mut i: usize = 0;
        while i < n
            invariant
                n == self.tokens@.len(),
                0 <= i <= n,
                forall|j: int| 0 <= j < i ==> self.views()[j] != token@,
            decreases n - i,
        {
            if self.tokens[i] == *token {
                proof {
                    assert(self.views()[i as int] == token@);
                }
                return true;
            }
            i = i + 1;
        }
        false
    }
}

/// The first `cap` tokens of `ts` whose lower-case folding the vocabulary
/// holds, in order.
pub open spec fn spec_kept(ts: Seq<Seq<char>>, vocab: Seq<Seq<char>>, cap: int) -> Seq<Seq<char>>
    decreases ts.len(),
{
    if ts.len() == 0 || cap <= 0 {
        Seq::empty()
    } else if vocab_has(vocab, lower_of(ts[0])) {
        seq![ts[0]] + spec_kept(ts.drop_first(), vocab, cap - 1)
    } else {
        spec_kept(ts.drop_first(), vocab, cap)
    }
}

/// The tokens joined with single spaces.
pub open spec fn join_spaced(ts: Seq<Seq<char>>) -> Seq<char>
    decreases ts.len(),
{
    if ts.len() == 0 {
        Seq::empty()
    } else if ts.len() == 1 {
        ts[0]
    } else {
        ts[0] + seq![' '] + join_spaced(ts.drop_first())
    }
}

proof fn lemma_join_push(ts: Seq<Seq<char>>, t: Seq<char>)
    requires
        ts.len() >= 1,
    ensures
        join_spaced(ts.push(t)) =~= join_spaced(ts) + seq![' '] + t,
    decreases ts.len(),
{
    if ts.len() == 1 {
        assert(ts.push(t)[0] == ts[0]);
        assert(ts.push(t).drop_first() =~= seq![t]);
        assert(join_spaced(seq![t]) == t);
    } else {
        assert(ts.push(t)[0] == ts[0]);
        assert(ts.push(t).drop_first() =~= ts.drop_first().push(t));
        lemma_join_push(ts.drop_first(), t);
    }
}

/// What the token filter returns: the first four white-space-separated
/// tokens of the input whose lower-case folding the vocabulary holds,
/// joined with single spaces.
pub open spec fn spec_filter_string(input: Seq<char>, vocab: Seq<Seq<char>>) -> Seq<char> {
    join_spaced(spec_kept(ws_tokens(input), vocab, 4))
}

/// Filter recognized text down to the tokens the vocabulary knows, keeping
/// at most four, in their original spelling and order.
pub fn filter_string(input: String, vocab: &TokenSet) -> (r: String)
    ensures
        r@ == spec_filter_string(input@, vocab.views()),
{
    let ghost s = input@;
    let ghost vs = vocab.views();
    let text: &str = input.as_str();
    let n: usize = text.unicode_len();
    let mut result: String = String::new();
    let mut kept: usize = 0;
    let ghost mut kept_seq: Seq<Seq<char>> = Seq::empty();
    let mut i: usize = 0;
    while i < n && kept < 4
        invariant
            n == s.len(),
            s == text@,
            s == input@,
            vs == vocab.views(),
            0 <= i <= n,
            kept == kept_seq.len(),
            kept <= 4,
            result@ == join_spaced(kept_seq),
            spec_kept(ws_tokens(s), vs, 4) == kept_seq + spec_kept(
                ws_split_from(s, i as int),
                vs,
                4 - kept_seq.len() as int,
            ),
        decreases n - i,
    {
        if char_is_whitespace(text.get_char(i)) {
            i = i + 1;
        } else {
            proof {
                lemma_run_end(s, i as int);
                lemma_run_end(s, i as int + 1);
            }
            let ghost tok_spec = s.subrange(i as int, run_end(s, i as int));
            let j: usize = crate::text::scan_token_end(text, i);
            proof {
                assert(i < j);
            }
            let tok: &str = text.substring_char(i, j);
            let low: String = to_lowercase(tok);
            let in_vocab: bool = vocab.contains(&low);
            proof {
                let remaining = ws_split_from(s, i as int);
                assert(remaining == seq![tok_spec] + ws_split_from(s, j as int));
                assert(remaining[0] == tok_spec);
                assert(remaining.drop_first() =~= ws_split_from(s, j as int));
            }
            if in_vocab {
                if kept > 0 {
                    result.append(" ");
                    proof {
                        reveal_strlit(" ");
                    }
                }
                result.append(tok);
                proof {
                    if kept_seq.len() == 0 {
                        assert(join_spaced(kept_seq) =~= Seq::<char>::empty());
                        assert(result@ =~= join_spaced(seq![tok_spec]));
                    } else {
                        lemma_join_push(kept_seq, tok_spec);
                        assert(result@ =~= join_spaced(kept_seq.push(tok_spec)));
                    }
                    kept_seq = kept_seq.push(tok_spec);
                }
                kept = kept + 1;
            }
            i = j;
        }
    }
    proof {
        if i >= n {
            assert(ws_split_from(s, i as int) =~= Seq::<Seq<char>>::empty());
        }
        assert(spec_kept(ws_split_from(s, i as int), vs, 4 - kept_seq.len() as int)
            =~= Seq::<Seq<char>>::empty());
        assert(kept_seq + Seq::<Seq<char>>::empty() =~= kept_seq);
    }
    result
}

/// Index of the first entry carrying the highest score once the scan has
/// reached `i` with current best `best`.
pub open spec fn max_idx_from(s: Seq<(u64, String)>, i: int, best: int) -> int
    decreases s.len() - i,
{
    if i < 0 || i >= s.len() || best < 0 || best >= s.len() {
        best
    } else if s[i].0 > s[best].0 {
        max_idx_from(s, i + 1, i)
    } else {
        max_idx_from(s, i + 1, best)
    }
}

/// Index of the first entry carrying the highest score.
pub open spec fn max_idx(s: Seq<(u64, String)>) -> int {
    max_idx_from(s, 1, 0)
}

proof fn lemma_max_idx_from(s: Seq<(u64, String)>, i: int, best: int)
    requires
        0 <= best < s.len(),
        1 <= i,
    ensures
        ({
            let r = max_idx_from(s, i, best);
            &&& 0 <= r < s.len()
            &&& s[r].0 >= s[best].0
            &&& forall|j: int| i <= j < s.len() ==> (#[trigger] s[j]).0 <= s[r].0
        }),
    decreases s.len() - i,
{
    if i >= s.len() {
    } else if s[i].0 > s[best].0 {
        lemma_max_idx_from(s, i + 1, i);
    } else {
        lemma_max_idx_from(s, i + 1, best);
    }
}

/// The ranking leads with a best-scored identifier: the head of the
/// selection is the identifier of an entry whose score no other entry
/// exceeds.
pub proof fn lemma_rank_head_is_best(s: Seq<(u64, String)>, k: int)
    requires
        s.len() >= 1,
        k >= 1,
    ensures
        spec_rank(s, k).len() >= 1,
        spec_rank(s, k)[0] == s[max_idx(s)].1,
        forall|j: int| 0 <= j < s.len() ==> (#[trigger] s[j]).0 <= s[max_idx(s)].0,
{
    lemma_max_idx_from(s, 1, 0);
    let m = max_idx(s);
    assert(spec_rank(s, k) == seq![s[m].1] + spec_rank(s.remove(m), k - 1));
    assert(spec_rank(s, k)[0] == s[m].1);
}

/// The `k` best-scored identifiers, best first: the first highest-scored
/// entry is taken, removed, and the selection repeated.
pub open spec fn spec_rank(s: Seq<(u64, String)>, k: int) -> Seq<String>
    decreases k,
{
    if k <= 0 || s.len() == 0 {
        Seq::empty()
    } else {
        let m = max_idx(s);
        seq![s[m].1] + spec_rank(s.remove(m), k - 1)
    }
}

/// Select the thirty best-scored identifiers, best first; ties keep the
/// earlier entry.  The scores come from the string-similarity scoring of
/// the catalog, scaled to integers by the caller.
pub fn rank(scored: Vec<(u64, String)>) -> (r: Vec<String>)
    ensures
        r@ == spec_rank(scored@, 30),
        r@.len() == (if scored@.len() <= 30 {
            scored@.len() as int
        } else {
            30int
        }),
{
    let ghost orig = scored@;
    let mut rest = scored;
    let mut out: Vec<String> = Vec::new();
    while out.len() < 30 && rest.len() > 0
        invariant
            out@.len() <= 30,
            orig.len() == out@.len() + rest@.len(),
            spec_rank(orig, 30) == out@ + spec_rank(rest@, 30 - out@.len() as int),
        decreases rest@.len(),
    {
        let ghost rs = rest@;
        let ghost out0 = out@;
        let ghost k = 30 - out@.len() as int;
        let n: usize = rest.len();
        let mut best: usize = 0;
        let mut i: usize = 1;
        while i < n
            invariant
                n == rest@.len(),
                rs == rest@,
                n >= 1,
                1 <= i <= n,
                0 <= best < n,
                max_idx(rs) == max_idx_from(rs, i as int, best as int),
            decreases n - i,
        {
            if rest[i].0 > rest[best].0 {
                best = i;
            }
            i = i + 1;
        }
        proof {
            assert(max_idx(rs) == best as int);
        }
        let picked = rest.remove(best);
        let ghost chosen = rs[best as int].1;
        out.push(picked.1);
        proof {
            assert(spec_rank(rs, k) == seq![chosen] + spec_rank(rest@, k - 1));
            assert(out@ =~= out0.push(chosen));
            assert(out0 + (seq![chosen] + spec_rank(rest@, k - 1)) =~= out@ + spec_rank(
                rest@,
                k - 1,
            ));
        }
    }
    proof {
        if rest@.len() == 0 {
            assert(spec_rank(rest@, 30 - out@.len() as int) =~= Seq::<String>::empty());
        } else {
            assert(out@.len() == 30);
            assert(spec_rank(rest@, 0) =~= Seq::<String>::empty());
        }
        assert(out@ + Seq::<String>::empty() =~= out@);
    }
    out
}

/// The identifier-to-files table: for each catalog identifier, the names of
/// its reference image files.
pub struct IdFileMap {
    pub entries: Vec<(String, Vec<String>)>,
}

/// The file list the table maps `id` to; the first matching entry decides.
pub open spec fn spec_files_of(s: Seq<(String, Vec<String>)>, id: Seq<char>) -> Seq<String>
    decreases s.len(),
{
    if s.len() == 0 {
        Seq::empty()
    } else if s[0].0@ == id {
        s[0].1@
    } else {
        spec_files_of(s.drop_first(), id)
    }
}

/// Whether the table holds an entry for `id`.
pub open spec fn spec_id_present(s: Seq<(String, Vec<String>)>, id: Seq<char>) -> bool {
    exists|i: int| 0 <= i < s.len() && (#[trigger] s[i]).0@ == id
}

impl IdFileMap {
    pub fn new() -> (r: IdFileMap)
        ensures
            r.entries@.len() == 0,
    {
        IdFileMap { entries: Vec::new() }
    }

    /// Add one identifier with its file names.
    pub fn insert(&mut self, id: String, files: Vec<String>)
        ensures
            final(self).entries@ == old(self).entries@.push((id, files)),
    {
        self.entries.push((id, files));
    }
}

/// One result row: the file name as a JSON object.
pub open spec fn entry_json(f: Seq<char>) -> Seq<char> {
    ("{\"uuid\": \"")@ + f + ("\"}")@
}

/// The rows joined with commas.
pub open spec fn json_list(rows: Seq<Seq<char>>) -> Seq<char>
    decreases rows.len(),
{
    if rows.len() == 0 {
        Seq::empty()
    } else if rows.len() == 1 {
        rows[0]
    } else {
        rows[0] + (", ")@ + json_list(rows.drop_first())
    }
}

proof fn lemma_json_list_push(rows: Seq<Seq<char>>, x: Seq<char>)
    requires
        rows.len() >= 1,
    ensures
        json_list(rows.push(x)) =~= json_list(rows) + (", ")@ + x,
    decreases rows.len(),
{
    if rows.len() == 1 {
        assert(rows.push(x)[0] == rows[0]);
        assert(rows.push(x).drop_first() =~= seq![x]);
        assert(json_list(seq![x]) == x);
    } else {
        assert(rows.push(x)[0] == rows[0]);
        assert(rows.push(x).drop_first() =~= rows.drop_first().push(x));
        lemma_json_list_push(rows.drop_first(), x);
    }
}

/// The result rows of the ranked identifiers from position `i` on: one row
/// per file of each identifier, in ranking order.
pub open spec fn spec_rows_from(
    ranked: Seq<String>,
    map: Seq<(String, Vec<String>)>,
    i: int,
) -> Seq<Seq<char>>
    decreases ranked.len() - i,
{
    if i < 0 || i >= ranked.len() {
        Seq::empty()
    } else {
        spec_files_of(map, ranked[i]@).map_values(|f: String| entry_json(f@)) + spec_rows_from(
            ranked,
            map,
            i + 1,
        )
    }
}

/// What the search reply holds: one JSON row per reference file of each
/// ranked identifier, in order, joined with commas.
pub open spec fn spec_search(ranked: Seq<String>, map: Seq<(String, Vec<String>)>) -> Seq<char> {
    json_list(spec_rows_from(ranked, map, 0))
}

/// Render the ranked identifiers as the reply's rows: each identifier's
/// reference files in order, each as a JSON object, joined with commas.
/// Every ranked identifier must be present in the table.
pub fn search(ranked: &Vec<String>, files: &IdFileMap) -> (r: String)
    requires
        forall|i: int| 0 <= i < ranked@.len() ==> spec_id_present(files.entries@, ranked@[i]@),
    ensures
        r@ == spec_search(ranked@, files.entries@),
{
    let ghost rs = ranked@;
    let ghost m = files.entries@;
    let mut result: String = String::new();
    let mut first: bool = true;
    let ghost mut rows_acc: Seq<Seq<char>> = Seq::empty();
    let n: usize = ranked.len();
    let mut i: usize = 0;
    while i < n
        invariant
            n == rs.len(),
            rs == ranked@,
            m == files.entries@,
            forall|k: int| 0 <= k < rs.len() ==> spec_id_present(m, rs[k]@),
            0 <= i <= n,
            first == (rows_acc.len() == 0),
            result@ == json_list(rows_acc),
            spec_rows_from(rs, m, 0) == rows_acc + spec_rows_from(rs, m, i as int),
        decreases n - i,
    {
        let id: &String = &ranked[i];
        let ghost idv = rs[i as int]@;
        let nm: usize = files.entries.len();
        let mut j: usize = 0;
        let mut at: usize = 0;
        let mut found: bool = false;
        while j < nm
            invariant
                nm == m.len(),
                m == files.entries@,
                idv == rs[i as int]@,
                id@ == idv,
                i < rs.len(),
                rs == ranked@,
                0 <= j <= nm,
                found ==> 0 <= at < j && m[at as int].0@ == idv && (forall|k: int|
                    0 <= k < at ==> (#[trigger] m[k]).0@ != idv),
                !found ==> forall|k: int| 0 <= k < j ==> (#[trigger] m[k]).0@ != idv,
            decreases nm - j,
        {
            if !found && files.entries[j].0 == *id {
                at = j;
                found = true;
            }
            j = j + 1;
        }
        proof {
            assert(found) by {
                if !found {
                    assert(forall|k: int| 0 <= k < m.len() ==> (#[trigger] m[k]).0@ != idv);
                    assert(!spec_id_present(m, idv));
                }
            }
            lemma_files_first_match(m, idv, at as int);
        }
        let file_list: &Vec<String> = &files.entries[at].1;
        let ghost fl = file_list@;
        let fn_count: usize = file_list.len();
        let mut f: usize = 0;
        while f < fn_count
            invariant
                fn_count == fl.len(),
                fl == file_list@,
                fl == files.entries@[at as int].1@,
                at < files.entries@.len(),
                0 <= f <= fn_count,
                first == (rows_acc.len() == 0),
                result@ == json_list(rows_acc),
                rows_acc + fl.map_values(|x: String| entry_json(x@)).skip(f as int)
                    + spec_rows_from(rs, m, i as int + 1) == spec_rows_from(rs, m, 0),
                m == files.entries@,
                rs == ranked@,
                i < rs.len(),
            decreases fn_count - f,
        {
            let ghost row = entry_json(fl[f as int]@);
            if !first {
                result.append(", ");
            }
            result.append("{\"uuid\": \"");
            result.append(file_list[f].as_str());
            result.append("\"}");
            proof {
                let mapped = fl.map_values(|x: String| entry_json(x@));
                assert(mapped[f as int] == row);
                assert(mapped.skip(f as int)[0] == row);
                assert(rows_acc.push(row) + mapped.skip(f as int + 1) =~= rows_acc + mapped.skip(
                    f as int,
                ));
                if rows_acc.len() == 0 {
                    assert(json_list(rows_acc) =~= Seq::<char>::empty());
                    assert(result@ =~= json_list(seq![row]));
                } else {
                    lemma_json_list_push(rows_acc, row);
                    assert(result@ =~= json_list(rows_acc.push(row)));
                }
                rows_acc = rows_acc.push(row);
            }
            first = false;
            f = f + 1;
        }
        proof {
            assert(spec_rows_from(rs, m, i as int) == spec_files_of(m, idv).map_values(
                |x: String| entry_json(x@),
            ) + spec_rows_from(rs, m, i as int + 1));
            assert(fl.map_values(|x: String| entry_json(x@)).skip(fn_count as int)
                =~= Seq::<Seq<char>>::empty());
            assert(rows_acc + Seq::<Seq<char>>::empty() + spec_rows_from(rs, m, i as int + 1)
                =~= rows_acc + spec_rows_from(rs, m, i as int + 1));
        }
        i = i + 1;
    }
    proof {
        assert(spec_rows_from(rs, m, n as int) =~= Seq::<Seq<char>>::empty());
        assert(rows_acc + Seq::<Seq<char>>::empty() =~= rows_acc);
    }
    result
}

proof fn lemma_files_first_match(s: Seq<(String, Vec<String>)>, id: Seq<char>, j: int)
    requires
        0 <= j < s.len(),
        s[j].0@ == id,
        forall|i: int| 0 <= i < j ==> (#[trigger] s[i]).0@ != id,
    ensures
        spec_files_of(s, id) == s[j].1@,
    decreases j,
{
    if j > 0 {
        lemma_files_first_match(s.drop_first(), id, j - 1);
    }
}

} // verus!
