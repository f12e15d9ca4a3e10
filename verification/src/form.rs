//! The request body's form fields, the deterministic fingerprints that key
//! the caches, and the rule that turns a `file:` field into an attachment or
//! lets it degrade to plain text.
use crate::config::FetchConfig;
use crate::process::sel_of;
use crate::text::{dec_seq, push_char, to_dec_string};
use vstd::prelude::*;

verus! {

/// One form field of a request body, in input order.
pub struct FormField {
    pub name: String,
    pub value: String,
}

impl View for FormField {
    type V = (Seq<char>, Seq<char>);

    open spec fn view(&self) -> (Seq<char>, Seq<char>) {
        (self.name@, self.value@)
    }
}

impl DeepView for FormField {
    type V = (Seq<char>, Seq<char>);

    open spec fn deep_view(&self) -> (Seq<char>, Seq<char>) {
        self.view()
    }
}

/// A text preceded by its length in decimal and a colon, so that distinct
/// texts never run together in a fingerprint.
pub open spec fn len_pref(s: Seq<char>) -> Seq<char> {
    dec_seq(s.len() as nat) + seq![':'] + s
}

/// The fields' part of a fingerprint: each name and value length-prefixed,
/// in input order.
pub open spec fn fields_fp(fs: Seq<(Seq<char>, Seq<char>)>) -> Seq<char>
    decreases fs.len(),
{
    if fs.len() == 0 {
        Seq::empty()
    } else {
        fields_fp(fs.drop_last()) + len_pref(fs.last().0) + len_pref(fs.last().1)
    }
}

/// The fingerprint of a request within one run: URL and fields; the
/// session's flags are constant, so they take no part.
pub open spec fn session_fp(url: Seq<char>, fs: Seq<(Seq<char>, Seq<char>)>) -> Seq<char> {
    len_pref(url) + fields_fp(fs)
}

/// The flag mark used inside persistent fingerprints.
pub open spec fn flag_char(b: bool) -> char {
    if b {
        '1'
    } else {
        '0'
    }
}

/// The selector's part of a persistent fingerprint.
pub open spec fn sel_fp(sel: Option<Seq<char>>) -> Seq<char> {
    match sel {
        None => seq!['-'],
        Some(q) => seq!['+'] + len_pref(q),
    }
}

/// The fingerprint of a request across runs: URL and fields as within a run,
/// then the selector and the flags that change what is stored.
pub open spec fn persistent_fp(
    url: Seq<char>,
    fs: Seq<(Seq<char>, Seq<char>)>,
    sel: Option<Seq<char>>,
    store_error: bool,
    pretty: bool,
    include_existing_columns: bool,
) -> Seq<char> {
    session_fp(url, fs) + sel_fp(sel) + seq![
        flag_char(store_error),
        flag_char(pretty),
        flag_char(include_existing_columns),
    ]
}

/// Appends `s` length-prefixed.
fn append_len_pref(out: &mut String, s: &str)
    ensures
        final(out)@ == old(out)@ + len_pref(s@),
{
    let d = to_dec_string(s.unicode_len() as u64);
    out.append(d.as_str());
    push_char(out, ':');
    out.append(s);
    proof {
        assert(out@ =~= old(out)@ + len_pref(s@));
    }
}

/// Computes the within-run fingerprint of a request.
pub fn session_fingerprint(url: &str, fields: &Vec<FormField>) -> (r: String)
    ensures
        r@ == session_fp(url@, fields.deep_view()),
{
    let mut out = String::new();
    append_len_pref(&mut out, url);
    let ghost fs = fields.deep_view();
    let n = fields.len();
    let mut i: usize = 0;
    proof {
        assert(fs.take(0) =~= Seq::<(Seq<char>, Seq<char>)>::empty());
        assert(out@ =~= len_pref(url@) + fields_fp(fs.take(0)));
    }
    while i < n
        invariant
            0 <= i <= n,
            n == fields@.len(),
            fs == fields.deep_view(),
            fs.len() == n,
            out@ == len_pref(url@) + fields_fp(fs.take(i as int)),
        decreases n - i,
    {
        append_len_pref(&mut out, fields[i].name.as_str());
        append_len_pref(&mut out, fields[i].value.as_str());
        proof {
            assert(fs.take(i + 1).drop_last() =~= fs.take(i as int));
            assert(fs.take(i + 1).last() == fs[i as int]);
            assert(fs[i as int] == fields[i as int]@);
            assert(out@ =~= len_pref(url@) + fields_fp(fs.take(i + 1)));
        }
        i = i + 1;
    }
    proof {
        assert(fs.take(n as int) =~= fs);
    }
    out
}

/// Computes the cross-run fingerprint of a request under a configuration.
pub fn persistent_fingerprint(url: &str, fields: &Vec<FormField>, cfg: &FetchConfig) -> (r: String)
    ensures
        r@ == persistent_fp(
            url@,
            fields.deep_view(),
            sel_of(*cfg),
            cfg.store_error,
            cfg.pretty,
            cfg.include_existing_columns,
        ),
{
    let mut out = session_fingerprint(url, fields);
    match &cfg.selector {
        None => push_char(&mut out, '-'),
        Some(q) => {
            push_char(&mut out, '+');
            append_len_pref(&mut out, q.as_str());
        },
    }
    push_char(&mut out, if cfg.store_error {
        '1'
    } else {
        '0'
    });
    push_char(&mut out, if cfg.pretty {
        '1'
    } else {
        '0'
    });
    push_char(&mut out, if cfg.include_existing_columns {
        '1'
    } else {
        '0'
    });
    proof {
        assert(out@ =~= persistent_fp(
            url@,
            fields.deep_view(),
            sel_of(*cfg),
            cfg.store_error,
            cfg.pretty,
            cfg.include_existing_columns,
        ));
    }
    out
}

/// A length-prefixed text is a prefix code: whatever follows it, the text
/// itself can be read back unambiguously.
proof fn lemma_len_pref_prefix_code(a: Seq<char>, b: Seq<char>, r1: Seq<char>, r2: Seq<char>)
    requires
        len_pref(a) + r1 == len_pref(b) + r2,
    ensures
        a == b,
        r1 == r2,
{
    let s = len_pref(a) + r1;
    crate::text::lemma_dec_seq_digits(a.len() as nat);
    crate::text::lemma_dec_seq_digits(b.len() as nat);
    assert(!crate::text::is_digit(':'));
    assert(s =~= dec_seq(a.len() as nat) + (seq![':'] + (a + r1)));
    assert((seq![':'] + (a + r1))[0] == ':');
    crate::codec::lemma_digit_prefix_concat(dec_seq(a.len() as nat), seq![':'] + (a + r1));
    assert(len_pref(b) + r2 =~= dec_seq(b.len() as nat) + (seq![':'] + (b + r2)));
    assert((seq![':'] + (b + r2))[0] == ':');
    crate::codec::lemma_digit_prefix_concat(dec_seq(b.len() as nat), seq![':'] + (b + r2));
    let d = crate::codec::digit_prefix_len(s);
    assert(d == dec_seq(a.len() as nat).len());
    assert(d == dec_seq(b.len() as nat).len());
    assert(s.take(d) =~= dec_seq(a.len() as nat));
    assert(s.take(d) =~= dec_seq(b.len() as nat));
    crate::text::lemma_dec_round_trip(a.len() as nat);
    crate::text::lemma_dec_round_trip(b.len() as nat);
    assert(a.len() == b.len());
    assert(a =~= s.subrange(d + 1, d + 1 + a.len() as int));
    assert(b =~= s.subrange(d + 1, d + 1 + a.len() as int));
    assert(r1 =~= s.skip(d + 1 + a.len() as int));
    assert(r2 =~= s.skip(d + 1 + a.len() as int));
}

/// The fields' encoding peels off the front as it was appended at the back.
proof fn lemma_fields_fp_cons(fs: Seq<(Seq<char>, Seq<char>)>)
    requires
        fs.len() > 0,
    ensures
        fields_fp(fs) == len_pref(fs[0].0) + len_pref(fs[0].1) + fields_fp(fs.skip(1)),
    decreases fs.len(),
{
    if fs.len() == 1 {
        assert(fs.drop_last() =~= Seq::<(Seq<char>, Seq<char>)>::empty());
        assert(fs.skip(1) =~= Seq::<(Seq<char>, Seq<char>)>::empty());
        assert(fields_fp(fs) =~= len_pref(fs[0].0) + len_pref(fs[0].1) + fields_fp(fs.skip(1)));
    } else {
        lemma_fields_fp_cons(fs.drop_last());
        assert(fs.drop_last()[0] == fs[0]);
        assert(fs.drop_last().skip(1) =~= fs.skip(1).drop_last());
        assert(fs.skip(1).last() == fs.last());
        assert(fields_fp(fs.skip(1)) == fields_fp(fs.skip(1).drop_last()) + len_pref(
            fs.skip(1).last().0,
        ) + len_pref(fs.skip(1).last().1));
        assert(fields_fp(fs) =~= len_pref(fs[0].0) + len_pref(fs[0].1) + fields_fp(fs.skip(1)));
    }
}

/// Equal field encodings come only from equal field lists.
proof fn lemma_fields_fp_injective(f1: Seq<(Seq<char>, Seq<char>)>, f2: Seq<(Seq<char>, Seq<char>)>)
    requires
        fields_fp(f1) == fields_fp(f2),
    ensures
        f1 == f2,
    decreases f1.len(),
{
    if f1.len() == 0 && f2.len() == 0 {
        assert(f1 =~= f2);
    } else if f1.len() == 0 {
        lemma_fields_fp_cons(f2);
        crate::text::lemma_dec_seq_digits(f2[0].0.len() as nat);
        assert(len_pref(f2[0].0).len() >= 2);
        assert(fields_fp(f2).len() >= 2);
        assert(false);
    } else if f2.len() == 0 {
        lemma_fields_fp_cons(f1);
        crate::text::lemma_dec_seq_digits(f1[0].0.len() as nat);
        assert(len_pref(f1[0].0).len() >= 2);
        assert(fields_fp(f1).len() >= 2);
        assert(false);
    } else {
        lemma_fields_fp_cons(f1);
        lemma_fields_fp_cons(f2);
        assert(fields_fp(f1) =~= len_pref(f1[0].0) + (len_pref(f1[0].1) + fields_fp(f1.skip(1))));
        assert(fields_fp(f2) =~= len_pref(f2[0].0) + (len_pref(f2[0].1) + fields_fp(f2.skip(1))));
        lemma_len_pref_prefix_code(
            f1[0].0,
            f2[0].0,
            len_pref(f1[0].1) + fields_fp(f1.skip(1)),
            len_pref(f2[0].1) + fields_fp(f2.skip(1)),
        );
        lemma_len_pref_prefix_code(
            f1[0].1,
            f2[0].1,
            fields_fp(f1.skip(1)),
            fields_fp(f2.skip(1)),
        );
        lemma_fields_fp_injective(f1.skip(1), f2.skip(1));
        assert(f1[0] == f2[0]);
        assert(f1.len() == f2.len());
        assert forall|i: int| 0 <= i < f1.len() implies f1[i] == f2[i] by {
            if i > 0 {
                assert(f1.skip(1)[i - 1] == f1[i]);
                assert(f2.skip(1)[i - 1] == f2[i]);
            }
        }
        assert(f1 =~= f2);
    }
}

/// Distinct request tuples never share a within-run fingerprint: the
/// fingerprint determines the URL and the fields that formed it, so the
/// cache never confuses two different requests.
pub proof fn lemma_session_fp_injective(
    u1: Seq<char>,
    f1: Seq<(Seq<char>, Seq<char>)>,
    u2: Seq<char>,
    f2: Seq<(Seq<char>, Seq<char>)>,
)
    requires
        session_fp(u1, f1) == session_fp(u2, f2),
    ensures
        u1 == u2,
        f1 == f2,
{
    lemma_len_pref_prefix_code(u1, u2, fields_fp(f1), fields_fp(f2));
    lemma_fields_fp_injective(f1, f2);
}

/// Field encodings are a prefix code too: whatever non-digit-led text
/// follows them, equal concatenations come only from equal field lists and
/// equal tails.
proof fn lemma_fields_fp_prefix_code(
    f1: Seq<(Seq<char>, Seq<char>)>,
    t1: Seq<char>,
    f2: Seq<(Seq<char>, Seq<char>)>,
    t2: Seq<char>,
)
    requires
        fields_fp(f1) + t1 == fields_fp(f2) + t2,
        t1.len() > 0,
        !crate::text::is_digit(t1[0]),
        t2.len() > 0,
        !crate::text::is_digit(t2[0]),
    ensures
        f1 == f2,
        t1 == t2,
    decreases f1.len(),
{
    if f1.len() == 0 && f2.len() == 0 {
        assert(fields_fp(f1) =~= Seq::<char>::empty());
        assert(fields_fp(f2) =~= Seq::<char>::empty());
        assert(f1 =~= f2);
        assert(t1 =~= fields_fp(f1) + t1);
        assert(t2 =~= fields_fp(f2) + t2);
    } else if f1.len() == 0 {
        // the left side opens with t1's non-digit, the right with a length
        // digit: impossible
        lemma_fields_fp_cons(f2);
        crate::text::lemma_dec_seq_digits(f2[0].0.len() as nat);
        assert((fields_fp(f1) + t1)[0] == t1[0]);
        assert((fields_fp(f2) + t2)[0] == len_pref(f2[0].0)[0]);
        assert(len_pref(f2[0].0)[0] == dec_seq(f2[0].0.len() as nat)[0]);
        assert(crate::text::is_digit(dec_seq(f2[0].0.len() as nat)[0]));
        assert(false);
    } else if f2.len() == 0 {
        lemma_fields_fp_cons(f1);
        crate::text::lemma_dec_seq_digits(f1[0].0.len() as nat);
        assert((fields_fp(f2) + t2)[0] == t2[0]);
        assert((fields_fp(f1) + t1)[0] == len_pref(f1[0].0)[0]);
        assert(len_pref(f1[0].0)[0] == dec_seq(f1[0].0.len() as nat)[0]);
        assert(crate::text::is_digit(dec_seq(f1[0].0.len() as nat)[0]));
        assert(false);
    } else {
        lemma_fields_fp_cons(f1);
        lemma_fields_fp_cons(f2);
        assert(fields_fp(f1) + t1 =~= len_pref(f1[0].0) + (len_pref(f1[0].1) + (fields_fp(
            f1.skip(1),
        ) + t1)));
        assert(fields_fp(f2) + t2 =~= len_pref(f2[0].0) + (len_pref(f2[0].1) + (fields_fp(
            f2.skip(1),
        ) + t2)));
        lemma_len_pref_prefix_code(
            f1[0].0,
            f2[0].0,
            len_pref(f1[0].1) + (fields_fp(f1.skip(1)) + t1),
            len_pref(f2[0].1) + (fields_fp(f2.skip(1)) + t2),
        );
        lemma_len_pref_prefix_code(
            f1[0].1,
            f2[0].1,
            fields_fp(f1.skip(1)) + t1,
            fields_fp(f2.skip(1)) + t2,
        );
        lemma_fields_fp_prefix_code(f1.skip(1), t1, f2.skip(1), t2);
        assert(f1[0] == f2[0]);
        assert(f1.len() == f2.len());
        assert forall|i: int| 0 <= i < f1.len() implies f1[i] == f2[i] by {
            if i > 0 {
                assert(f1.skip(1)[i - 1] == f1[i]);
                assert(f2.skip(1)[i - 1] == f2[i]);
            }
        }
        assert(f1 =~= f2);
    }
}

/// Distinct request tuples never share a cross-run fingerprint: the
/// persistent fingerprint determines the URL, the fields, the selector and
/// every flag that formed it, so the distributed cache never confuses two
/// different requests or configurations.
pub proof fn lemma_persistent_fp_injective(
    u1: Seq<char>,
    f1: Seq<(Seq<char>, Seq<char>)>,
    sel1: Option<Seq<char>>,
    se1: bool,
    p1: bool,
    i1: bool,
    u2: Seq<char>,
    f2: Seq<(Seq<char>, Seq<char>)>,
    sel2: Option<Seq<char>>,
    se2: bool,
    p2: bool,
    i2: bool,
)
    requires
        persistent_fp(u1, f1, sel1, se1, p1, i1) == persistent_fp(u2, f2, sel2, se2, p2, i2),
    ensures
        u1 == u2,
        f1 == f2,
        sel1 == sel2,
        se1 == se2,
        p1 == p2,
        i1 == i2,
{
    let flags1 = seq![flag_char(se1), flag_char(p1), flag_char(i1)];
    let flags2 = seq![flag_char(se2), flag_char(p2), flag_char(i2)];
    let t1 = sel_fp(sel1) + flags1;
    let t2 = sel_fp(sel2) + flags2;
    assert(persistent_fp(u1, f1, sel1, se1, p1, i1) =~= len_pref(u1) + (fields_fp(f1) + t1));
    assert(persistent_fp(u2, f2, sel2, se2, p2, i2) =~= len_pref(u2) + (fields_fp(f2) + t2));
    lemma_len_pref_prefix_code(u1, u2, fields_fp(f1) + t1, fields_fp(f2) + t2);
    assert(t1[0] == sel_fp(sel1)[0] && t2[0] == sel_fp(sel2)[0]);
    assert(!crate::text::is_digit(t1[0]) && !crate::text::is_digit(t2[0]));
    lemma_fields_fp_prefix_code(f1, t1, f2, t2);
    match (sel1, sel2) {
        (None, None) => {
            assert(flags1 =~= t1.skip(1));
            assert(flags2 =~= t2.skip(1));
        },
        (Some(q1), Some(q2)) => {
            assert(t1.skip(1) =~= len_pref(q1) + flags1);
            assert(t2.skip(1) =~= len_pref(q2) + flags2);
            lemma_len_pref_prefix_code(q1, q2, flags1, flags2);
        },
        (None, Some(q2)) => {
            assert(t1[0] == '-' && t2[0] == '+');
            assert(false);
        },
        (Some(q1), None) => {
            assert(t1[0] == '+' && t2[0] == '-');
            assert(false);
        },
    }
    assert(flags1 == flags2);
    assert(flags1[0] == flags2[0] && flags1[1] == flags2[1] && flags1[2] == flags2[2]);
}

/// Whether a field value names a local file to attach: it opens with the
/// five characters of the `file:` marker.
pub open spec fn is_file_ref(v: Seq<char>) -> bool {
    v.len() >= 5 && v[0] == 'f' && v[1] == 'i' && v[2] == 'l' && v[3] == 'e' && v[4] == ':'
}

/// Checks the `file:` marker on a field value.
pub fn field_is_file_ref(v: &str) -> (r: bool)
    ensures
        r == is_file_ref(v@),
{
    if v.unicode_len() < 5 {
        return false;
    }
    v.get_char(0) == 'f' && v.get_char(1) == 'i' && v.get_char(2) == 'l' && v.get_char(3) == 'e'
        && v.get_char(4) == ':'
}

/// How a form field travels: as plain text, or as an attached file.
#[derive(PartialEq, Eq, Structural, Clone, Copy, Debug)]
pub enum FieldPart {
    Text,
    FileAttachment,
}

/// Decides how a field travels: only a `file:` value whose file was read,
/// non-empty and within the size cap becomes an attachment; everything else
/// degrades to plain text.
///
/// `read_bytes` is how many bytes the caller managed to read from the named
/// file, or nothing when it could not be opened.
pub fn field_part_kind(value: &str, read_bytes: Option<u64>, max_filesize: u64) -> (r: FieldPart)
    ensures
        r == FieldPart::FileAttachment <==> (is_file_ref(value@) && (read_bytes matches Some(n)
            && 0 < n <= max_filesize)),
{
    if field_is_file_ref(value) {
        match read_bytes {
            Some(n) => if 0 < n && n <= max_filesize {
                FieldPart::FileAttachment
            } else {
                FieldPart::Text
            },
            None => FieldPart::Text,
        }
    } else {
        FieldPart::Text
    }
}

} // verus!
