//! The configuration transitions of one invocation: adding and removing
//! roots and patterns, importing patterns from file contents, the pre-scan
//! checks, keyword loading, and the incremental-scan state transitions.

use vstd::prelude::*;

use crate::encryption::{decrypt, decrypt_ok, decrypted, encrypt, encryption_shape, key_of};
use crate::matcher::{contains_string, str_views};
use crate::settings::ConfigFile;
use crate::text::{chars_to_string, utf8_to_string};
use vstd::string::StringSliceAdditionalSpecFns;
use vstd::utf8::{decode_utf8, valid_utf8};

verus! {

/// The fields an operation on the root list leaves untouched.
pub open spec fn same_but_roots(a: ConfigFile, b: ConfigFile) -> bool {
    &&& a.output_directory == b.output_directory
    &&& a.keywords == b.keywords
    &&& a.secret == b.secret
    &&& a.time_last_scan == b.time_last_scan
    &&& a.max_scan_threads == b.max_scan_threads
    &&& a.max_file_threads == b.max_file_threads
    &&& a.max_write_lines == b.max_write_lines
}

/// The fields an operation on the pattern list leaves untouched.
pub open spec fn same_but_keywords(a: ConfigFile, b: ConfigFile) -> bool {
    &&& a.output_directory == b.output_directory
    &&& a.roots == b.roots
    &&& a.secret == b.secret
    &&& a.time_last_scan == b.time_last_scan
    &&& a.max_scan_threads == b.max_scan_threads
    &&& a.max_file_threads == b.max_file_threads
    &&& a.max_write_lines == b.max_write_lines
}

/// Adds a root when it exists on disk and is not yet listed; any mutation
/// of the root list forces a full pass on the next scan.
pub fn add_root(cfg: &mut ConfigFile, root: String, exists: bool) -> (added: bool)
    ensures
        added == (exists && !str_views(old(cfg).roots@).contains(root@)),
        added ==> final(cfg).roots@ == old(cfg).roots@.push(root) && final(cfg).initial_scan
            == true,
        !added ==> final(cfg).roots == old(cfg).roots && final(cfg).initial_scan == old(
            cfg,
        ).initial_scan,
        same_but_roots(*old(cfg), *final(cfg)),
{
    if exists && !contains_string(&cfg.roots, &root) {
        cfg.roots.push(root);
        cfg.initial_scan = true;
        true
    } else {
        false
    }
}

/// Removes the first listed root equal to the given one; any mutation of
/// the root list forces a full pass on the next scan.
pub fn remove_root(cfg: &mut ConfigFile, root: &String) -> (removed: bool)
    ensures
        removed == str_views(old(cfg).roots@).contains(root@),
        removed ==> exists|i: int|
            {
                &&& 0 <= i < old(cfg).roots@.len()
                &&& str_views(old(cfg).roots@)[i] == root@
                &&& forall|j: int| 0 <= j < i ==> str_views(old(cfg).roots@)[j] != root@
                &&& final(cfg).roots@ == #[trigger] old(cfg).roots@.remove(i)
            } && final(cfg).initial_scan == true,
        !removed ==> final(cfg).roots == old(cfg).roots && final(cfg).initial_scan == old(
            cfg,
        ).initial_scan,
        same_but_roots(*old(cfg), *final(cfg)),
{
    let mut i: usize = 0;
    while i < cfg.roots.len()
        invariant
            i <= cfg.roots@.len(),
            *cfg == *old(cfg),
            forall|j: int| 0 <= j < i ==> str_views(old(cfg).roots@)[j] != root@,
        decreases cfg.roots@.len() - i,
    {
        if cfg.roots[i].eq(root) {
            assert(str_views(cfg.roots@)[i as int] == root@);
            cfg.roots.remove(i);
            cfg.initial_scan = true;
            return true;
        }
        i = i + 1;
    }
    assert forall|k: int| 0 <= k < str_views(old(cfg).roots@).len() implies str_views(
        old(cfg).roots@,
    )[k] != root@ by {}
    false
}

/// Adds one pattern: it is encrypted under the password and appended,
/// unless its plaintext is already among the existing (decrypted)
/// patterns; an addition forces a full pass on the next scan.
pub fn add_keyword(
    cfg: &mut ConfigFile,
    word: &String,
    existing: &Vec<String>,
    password: &str,
) -> (added: bool)
    ensures
        added == !str_views(existing@).contains(word@),
        added ==> {
            &&& final(cfg).keywords@.len() == old(cfg).keywords@.len() + 1
            &&& final(cfg).keywords@.drop_last() == old(cfg).keywords@
            &&& exists|iv: Seq<u8>|
                #[trigger] encryption_shape(
                    key_of(password.spec_bytes()),
                    iv,
                    vstd::utf8::encode_utf8(word@),
                    final(cfg).keywords@.last()@,
                )
            &&& final(cfg).initial_scan == true
        },
        !added ==> final(cfg).keywords == old(cfg).keywords && final(cfg).initial_scan == old(
            cfg,
        ).initial_scan,
        same_but_keywords(*old(cfg), *final(cfg)),
{
    if contains_string(existing, word) {
        false
    } else {
        let bytes = word.as_str().as_bytes();
        let ghost bv = bytes@;
        let blob = encrypt(bytes, password);
        let ghost blobv = blob@;
        cfg.keywords.push(blob);
        cfg.initial_scan = true;
        proof {
            assert(cfg.keywords@.drop_last() =~= old(cfg).keywords@);
            assert(bv == vstd::utf8::encode_utf8(word@));
            let k = key_of(password.spec_bytes());
            let iv0 = choose|iv: Seq<u8>| #[trigger] encryption_shape(k, iv, bv, blobv);
            assert(cfg.keywords@.last()@ == blobv);
            assert(encryption_shape(k, iv0, vstd::utf8::encode_utf8(word@), cfg.keywords@.last()@));
        }
        true
    }
}

/// Removes the pattern whose plaintext equals the given word: the first
/// match leaves both the plaintext list and the stored encrypted list, at
/// the same position. Removal does not force a full pass.
pub fn remove_keyword(cfg: &mut ConfigFile, plain: &mut Vec<String>, word: &String) -> (removed:
    bool)
    requires
        old(plain)@.len() == old(cfg).keywords@.len(),
    ensures
        removed == str_views(old(plain)@).contains(word@),
        removed ==> exists|i: int|
            {
                &&& 0 <= i < old(plain)@.len()
                &&& str_views(old(plain)@)[i] == word@
                &&& forall|j: int| 0 <= j < i ==> str_views(old(plain)@)[j] != word@
                &&& final(plain)@ == #[trigger] old(plain)@.remove(i)
                &&& final(cfg).keywords@ == old(cfg).keywords@.remove(i)
            },
        !removed ==> *final(plain) == *old(plain) && final(cfg).keywords == old(cfg).keywords,
        final(cfg).initial_scan == old(cfg).initial_scan,
        final(cfg).roots == old(cfg).roots,
        same_but_keywords(*old(cfg), *final(cfg)),
{
    let mut i: usize = 0;
    while i < plain.len()
        invariant
            i <= plain@.len(),
            *plain == *old(plain),
            *cfg == *old(cfg),
            plain@.len() == cfg.keywords@.len(),
            forall|j: int| 0 <= j < i ==> str_views(old(plain)@)[j] != word@,
        decreases plain@.len() - i,
    {
        if plain[i].eq(word) {
            assert(str_views(plain@)[i as int] == word@);
            plain.remove(i);
            cfg.keywords.remove(i);
            return true;
        }
        i = i + 1;
    }
    assert forall|k: int| 0 <= k < str_views(old(plain)@).len() implies str_views(old(plain)@)[k]
        != word@ by {}
    false
}

/// Whether a character separates pattern tokens in an import file.
pub open spec fn is_token_delim(c: char) -> bool {
    c == ',' || c == '\n' || c == '\r'
}

/// The tokenizer's state after some prefix of the file: the finished
/// (non-empty) tokens, and the token under construction.
pub open spec fn token_state(s: Seq<char>) -> (Seq<Seq<char>>, Seq<char>)
    decreases s.len(),
{
    if s.len() == 0 {
        (Seq::empty(), Seq::empty())
    } else {
        let (done, cur) = token_state(s.drop_last());
        if is_token_delim(s.last()) {
            (
                done + (if cur.len() > 0 {
                    seq![cur]
                } else {
                    Seq::empty()
                }),
                Seq::empty(),
            )
        } else {
            (done, cur.push(s.last()))
        }
    }
}

/// The pattern tokens of an import file: split on comma, LF and CR, empty
/// tokens dropped.
pub open spec fn tokens_of(s: Seq<char>) -> Seq<Seq<char>> {
    let (done, cur) = token_state(s);
    done + (if cur.len() > 0 {
        seq![cur]
    } else {
        Seq::empty()
    })
}

/// Splits import-file contents into pattern tokens: separated by comma,
/// LF or CR, with empty tokens ignored.
pub fn split_patterns(contents: &str) -> (r: Vec<String>)
    ensures
        str_views(r@) == tokens_of(contents@),
{
    let cs = crate::text::string_chars(contents);
    let mut done: Vec<String> = Vec::new();
    let mut cur: Vec<char> = Vec::new();
    let mut i: usize = 0;
    while i < cs.len()
        invariant
            i <= cs@.len(),
            cs@ == contents@,
            token_state(contents@.take(i as int)) == (str_views(done@), cur@),
        decreases cs@.len() - i,
    {
        let c = cs[i];
        proof {
            assert(contents@.take(i + 1).drop_last() =~= contents@.take(i as int));
        }
        if c == ',' || c == '\n' || c == '\r' {
            if cur.len() > 0 {
                let token = chars_to_string(&cur);
                done.push(token);
                cur = Vec::new();
                proof {
                    assert(str_views(done@) =~= token_state(contents@.take(i + 1)).0);
                }
            } else {
                proof {
                    assert(str_views(done@) =~= token_state(contents@.take(i + 1)).0);
                }
            }
        } else {
            cur.push(c);
        }
        i = i + 1;
    }
    proof {
        assert(contents@.take(contents@.len() as int) =~= contents@);
    }
    if cur.len() > 0 {
        let token = chars_to_string(&cur);
        done.push(token);
        proof {
            assert(str_views(done@) =~= tokens_of(contents@));
        }
    } else {
        proof {
            assert(str_views(done@) =~= tokens_of(contents@));
        }
    }
    done
}

/// The tokens an import adds: those not already among the existing
/// plaintext patterns, in file order. Duplicates within the file are kept,
/// as each is checked against the pre-import list only.
pub open spec fn added_tokens(tokens: Seq<Seq<char>>, existing: Seq<Seq<char>>) -> Seq<Seq<char>>
    decreases tokens.len(),
{
    if tokens.len() == 0 {
        Seq::empty()
    } else {
        added_tokens(tokens.drop_last(), existing) + (if !existing.contains(tokens.last()) {
            Seq::empty().push(tokens.last())
        } else {
            Seq::empty()
        })
    }
}

/// Whether a stored keyword is the encryption of a token under the key,
/// for some IV.
pub open spec fn keyword_encrypts(kw: String, token: Seq<char>, key: Seq<u8>) -> bool {
    exists|iv: Seq<u8>|
        #[trigger] encryption_shape(key, iv, vstd::utf8::encode_utf8(token), kw@)
}

/// Whether the keywords at positions `oldlen..` are encryptions of the
/// added tokens, in order.
pub open spec fn encrypted_suffix(
    kws: Seq<String>,
    oldlen: int,
    added: Seq<Seq<char>>,
    key: Seq<u8>,
) -> bool {
    forall|k: int|
        0 <= k < added.len() ==> #[trigger] keyword_encrypts(kws[oldlen + k], added[k], key)
}

proof fn lemma_encrypted_suffix_push(
    kws: Seq<String>,
    kws2: Seq<String>,
    oldlen: int,
    added: Seq<Seq<char>>,
    t: Seq<char>,
    key: Seq<u8>,
    iv0: Seq<u8>,
)
    requires
        encrypted_suffix(kws, oldlen, added, key),
        0 <= oldlen,
        kws.len() == oldlen + added.len(),
        kws2 == kws.push(kws2.last()),
        encryption_shape(key, iv0, vstd::utf8::encode_utf8(t), kws2.last()@),
    ensures
        encrypted_suffix(kws2, oldlen, added.push(t), key),
{
    assert forall|k: int|
        0 <= k < added.push(t).len() implies #[trigger] keyword_encrypts(
        kws2[oldlen + k],
        added.push(t)[k],
        key,
    ) by {
        if k < added.len() {
            assert(added.push(t)[k] == added[k]);
            assert(kws2[oldlen + k] == kws[oldlen + k]);
            assert(keyword_encrypts(kws[oldlen + k], added[k], key));
        } else {
            assert(added.push(t)[k] == t);
            assert(kws2[oldlen + k] == kws2.last());
            assert(encryption_shape(
                key,
                iv0,
                vstd::utf8::encode_utf8(t),
                kws2.last()@,
            ));
            assert(keyword_encrypts(kws2.last(), t, key));
        }
    }
}

/// Imports patterns from file contents: every token not already among the
/// existing patterns is encrypted and appended; any addition forces a full
/// pass on the next scan.
pub fn import_keywords(
    cfg: &mut ConfigFile,
    contents: &str,
    existing: &Vec<String>,
    password: &str,
) -> (n_added: usize)
    ensures
        ({
            let added = added_tokens(tokens_of(contents@), str_views(existing@));
            &&& n_added == added.len()
            &&& final(cfg).keywords@.len() == old(cfg).keywords@.len() + added.len()
            &&& final(cfg).keywords@.take(old(cfg).keywords@.len() as int) == old(cfg).keywords@
            &&& encrypted_suffix(
                final(cfg).keywords@,
                old(cfg).keywords@.len() as int,
                added,
                key_of(password.spec_bytes()),
            )
            &&& added.len() > 0 ==> final(cfg).initial_scan == true
            &&& added.len() == 0 ==> final(cfg).initial_scan == old(cfg).initial_scan
        }),
        final(cfg).roots == old(cfg).roots,
        same_but_keywords(*old(cfg), *final(cfg)),
{
    let tokens = split_patterns(contents);
    let ghost toks = tokens_of(contents@);
    let ghost exv = str_views(existing@);
    let ghost base = cfg.keywords@;
    let mut n_added: usize = 0;
    let mut i: usize = 0;
    while i < tokens.len()
        invariant
            i <= tokens@.len(),
            str_views(tokens@) == toks,
            exv == str_views(existing@),
            base == old(cfg).keywords@,
            n_added <= i,
            ({
                let added = added_tokens(toks.take(i as int), exv);
                &&& n_added == added.len()
                &&& cfg.keywords@.len() == base.len() + added.len()
                &&& cfg.keywords@.take(base.len() as int) == base
                &&& encrypted_suffix(
                    cfg.keywords@,
                    base.len() as int,
                    added,
                    key_of(password.spec_bytes()),
                )
                &&& added.len() > 0 ==> cfg.initial_scan == true
                &&& added.len() == 0 ==> cfg.initial_scan == old(cfg).initial_scan
            }),
            same_but_keywords(*old(cfg), *cfg),
            cfg.roots == old(cfg).roots,
        decreases tokens@.len() - i,
    {
        proof {
            assert(toks.take(i + 1).drop_last() =~= toks.take(i as int));
            assert(toks.take(i + 1).last() == tokens@[i as int]@);
        }
        let ghost added_pre = added_tokens(toks.take(i as int), exv);
        let ghost keywords_pre = cfg.keywords@;
        if !contains_string(existing, &tokens[i]) {
            let bytes = tokens[i].as_str().as_bytes();
            let ghost bv = bytes@;
            let blob = encrypt(bytes, password);
            let ghost blobv = blob@;
            cfg.keywords.push(blob);
            cfg.initial_scan = true;
            n_added = n_added + 1;
            proof {
                let kk = key_of(password.spec_bytes());
                let t = tokens@[i as int]@;
                let added = added_tokens(toks.take(i + 1), exv);
                assert(added =~= added_pre.push(t));
                assert(cfg.keywords@.take(base.len() as int) =~= base);
                assert(bv == vstd::utf8::encode_utf8(t));
                let iv0 = choose|iv: Seq<u8>| #[trigger] encryption_shape(kk, iv, bv, blobv);
                assert(cfg.keywords@ == keywords_pre.push(cfg.keywords@.last()));
                assert(cfg.keywords@.last()@ == blobv);
                assert(encryption_shape(kk, iv0, vstd::utf8::encode_utf8(t), cfg.keywords@.last()@));
                lemma_encrypted_suffix_push(
                    keywords_pre,
                    cfg.keywords@,
                    base.len() as int,
                    added_pre,
                    t,
                    kk,
                    iv0,
                );
                assert(encrypted_suffix(cfg.keywords@, base.len() as int, added, kk));
            }
        } else {
            proof {
                assert(added_tokens(toks.take(i + 1), exv) =~= added_pre);
            }
        }
        i = i + 1;
    }
    proof {
        assert(toks.take(toks.len() as int) =~= toks);
        assert(str_views(tokens@).len() == tokens@.len());
    }
    n_added
}

/// Sets the output directory; a change of destination forces a full pass
/// on the next scan.
pub fn set_output_directory(cfg: &mut ConfigFile, dir: String)
    ensures
        final(cfg).output_directory == Some(dir),
        final(cfg).initial_scan == true,
        final(cfg).keywords == old(cfg).keywords,
        final(cfg).roots == old(cfg).roots,
        final(cfg).secret == old(cfg).secret,
        final(cfg).time_last_scan == old(cfg).time_last_scan,
        final(cfg).max_scan_threads == old(cfg).max_scan_threads,
        final(cfg).max_file_threads == old(cfg).max_file_threads,
        final(cfg).max_write_lines == old(cfg).max_write_lines,
{
    cfg.output_directory = Some(dir);
    cfg.initial_scan = true;
}

/// A successful scan ends the initial-scan state and records the wall
/// clock supplied by the caller as the new watermark.
pub fn complete_scan(cfg: &mut ConfigFile, now: String)
    ensures
        final(cfg).initial_scan == false,
        final(cfg).time_last_scan == now,
        final(cfg).output_directory == old(cfg).output_directory,
        final(cfg).keywords == old(cfg).keywords,
        final(cfg).roots == old(cfg).roots,
        final(cfg).secret == old(cfg).secret,
        final(cfg).max_scan_threads == old(cfg).max_scan_threads,
        final(cfg).max_file_threads == old(cfg).max_file_threads,
        final(cfg).max_write_lines == old(cfg).max_write_lines,
{
    cfg.initial_scan = false;
    cfg.time_last_scan = now;
}

/// Whether a configuration is ready to scan: an output directory, at least
/// one pattern, at least one root, and a stored password hash.
pub open spec fn scan_ready(cfg: ConfigFile) -> bool {
    &&& cfg.output_directory is Some
    &&& cfg.keywords@.len() > 0
    &&& cfg.roots@.len() > 0
    &&& cfg.secret is Some
}

/// The pre-scan failure messages of a configuration, in check order.
pub open spec fn prescan_messages(cfg: ConfigFile) -> Seq<Seq<char>> {
    (if cfg.output_directory is None {
        seq!["No output directory designated."@]
    } else {
        Seq::empty()
    }) + (if cfg.keywords@.len() == 0 {
        seq!["No keywords designated."@]
    } else {
        Seq::empty()
    }) + (if cfg.roots@.len() == 0 {
        seq!["No root directories designated."@]
    } else {
        Seq::empty()
    }) + (if cfg.secret is None {
        seq!["No application secret stored"@]
    } else {
        Seq::empty()
    })
}

/// The pre-scan checks: each failing precondition yields its message; the
/// scan may start only when none fails.
pub fn prescan_checks(cfg: &ConfigFile) -> (r: (bool, Vec<String>))
    ensures
        r.0 == scan_ready(*cfg),
        str_views(r.1@) == prescan_messages(*cfg),
        r.0 <==> r.1@.len() == 0,
{
    let mut msgs: Vec<String> = Vec::new();
    if cfg.output_directory.is_none() {
        msgs.push("No output directory designated.".to_owned());
    }
    if cfg.keywords.is_empty() {
        msgs.push("No keywords designated.".to_owned());
    }
    if cfg.roots.is_empty() {
        msgs.push("No root directories designated.".to_owned());
    }
    if cfg.secret.is_none() {
        msgs.push("No application secret stored".to_owned());
    }
    let ok = !(cfg.output_directory.is_none() || cfg.keywords.is_empty() || cfg.roots.is_empty()
        || cfg.secret.is_none());
    proof {
        assert(str_views(msgs@) =~= prescan_messages(*cfg));
    }
    (ok, msgs)
}

/// Whether every stored pattern decrypts and decodes under a key.
pub open spec fn keywords_load_ok(keywords: Seq<String>, key: Seq<u8>) -> bool {
    forall|i: int|
        0 <= i < keywords.len() ==> decrypt_ok(#[trigger] keywords[i]@, key) && valid_utf8(
            decrypted(keywords[i]@, key),
        )
}

/// The plaintext patterns of a stored list under a key.
pub open spec fn loaded_keywords(keywords: Seq<String>, key: Seq<u8>) -> Seq<Seq<char>> {
    keywords.map_values(|w: String| decode_utf8(decrypted(w@, key)))
}

/// Decrypts the stored pattern list with the password. A pattern that
/// fails to decrypt, or whose plaintext is not UTF-8, aborts the load so
/// the user can reset the store.
pub fn load_keywords(encrypted_keywords: &Vec<String>, password: &str) -> (r: Option<Vec<String>>)
    ensures
        r is Some <==> keywords_load_ok(encrypted_keywords@, key_of(password.spec_bytes())),
        r matches Some(ws) ==> str_views(ws@) == loaded_keywords(
            encrypted_keywords@,
            key_of(password.spec_bytes()),
        ),
{
    let ghost key = key_of(password.spec_bytes());
    let mut out: Vec<String> = Vec::new();
    let mut i: usize = 0;
    while i < encrypted_keywords.len()
        invariant
            i <= encrypted_keywords@.len(),
            key == key_of(password.spec_bytes()),
            forall|j: int|
                0 <= j < i ==> decrypt_ok(#[trigger] encrypted_keywords@[j]@, key) && valid_utf8(
                    decrypted(encrypted_keywords@[j]@, key),
                ),
            str_views(out@) == loaded_keywords(encrypted_keywords@.take(i as int), key),
        decreases encrypted_keywords@.len() - i,
    {
        let bytes = match decrypt(encrypted_keywords[i].as_str(), password) {
            Ok(b) => b,
            Err(_) => {
                return None;
            },
        };
        let word = match utf8_to_string(&bytes) {
            Some(w) => w,
            None => {
                return None;
            },
        };
        let ghost prev = out@;
        out.push(word);
        proof {
            let lk1 = loaded_keywords(encrypted_keywords@.take(i + 1), key);
            assert(str_views(prev).len() == prev.len());
            assert(prev.len() == i);
            assert forall|k: int| 0 <= k < i + 1 implies str_views(out@)[k] == lk1[k] by {
                assert(encrypted_keywords@.take(i + 1)[k] == encrypted_keywords@[k]);
                if k < i {
                    assert(out@[k] == prev[k]);
                    assert(str_views(prev)[k] == loaded_keywords(
                        encrypted_keywords@.take(i as int),
                        key,
                    )[k]);
                } else {
                    assert(out@[k]@ == decode_utf8(decrypted(encrypted_keywords@[k]@, key)));
                }
            }
            assert(str_views(out@) =~= lk1);
        }
        i = i + 1;
    }
    proof {
        assert(encrypted_keywords@.take(encrypted_keywords@.len() as int)
            =~= encrypted_keywords@);
    }
    Some(out)
}

} // verus!
