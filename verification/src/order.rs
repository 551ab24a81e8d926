//! The order of what is collected from the records, and that it does not
//! depend on the order of the records.
use crate::meta;
use crate::meta::FieldView;
use crate::meta::FnView;
use crate::meta::MetaView;
use crate::meta::RecordView;
use crate::meta::StructView;
use crate::text;
use crate::ty;
use vstd::prelude::*;

verus! {

/// Each name comes before the next.
pub open spec fn structs_ordered(structs: Seq<StructView>) -> bool {
    forall|i: int, j: int|
        0 <= i < j < structs.len() ==> text::text_less(
            (#[trigger] structs[i]).name,
            (#[trigger] structs[j]).name,
        )
}

/// No name comes before an earlier one.
pub open spec fn fns_ordered(funcs: Seq<FnView>) -> bool {
    forall|i: int, j: int|
        0 <= i < j < funcs.len() ==> !text::text_less(
            (#[trigger] funcs[j]).name,
            (#[trigger] funcs[i]).name,
        )
}

/// The fields of the struct called `name`.
pub open spec fn fields_named(structs: Seq<StructView>, name: Seq<char>) -> Option<Seq<FieldView>>
    decreases structs.len(),
{
    if structs.len() == 0 {
        None
    } else if structs.last().name == name {
        Some(structs.last().fields)
    } else {
        fields_named(structs.drop_last(), name)
    }
}

proof fn lemma_struct_place(structs: Seq<StructView>, name: Seq<char>)
    ensures
        ({
            let at = meta::struct_place(structs, name);
            &&& at <= structs.len()
            &&& forall|i: int| 0 <= i < at ==> text::text_less((#[trigger] structs[i]).name, name)
            &&& at < structs.len() ==> !text::text_less(structs[at as int].name, name)
        }),
    decreases structs.len(),
{
    if structs.len() > 0 && text::text_less(structs[0].name, name) {
        let rest = structs.skip(1);
        lemma_struct_place(rest, name);
        let at = meta::struct_place(structs, name);
        assert forall|i: int| 0 <= i < at implies text::text_less(
            (#[trigger] structs[i]).name,
            name,
        ) by {
            if i > 0 {
                assert(structs[i] == rest[i - 1]);
            }
        }
        if at < structs.len() {
            assert(structs[at as int] == rest[at - 1]);
        }
    }
}

proof fn lemma_fn_place(funcs: Seq<FnView>, name: Seq<char>)
    ensures
        ({
            let at = meta::fn_place(funcs, name);
            &&& at <= funcs.len()
            &&& forall|i: int| 0 <= i < at ==> !text::text_less(name, (#[trigger] funcs[i]).name)
            &&& at < funcs.len() ==> text::text_less(name, funcs[at as int].name)
        }),
    decreases funcs.len(),
{
    if funcs.len() > 0 && !text::text_less(name, funcs[0].name) {
        let rest = funcs.skip(1);
        lemma_fn_place(rest, name);
        let at = meta::fn_place(funcs, name);
        assert forall|i: int| 0 <= i < at implies !text::text_less(
            name,
            (#[trigger] funcs[i]).name,
        ) by {
            if i > 0 {
                assert(funcs[i] == rest[i - 1]);
            }
        }
        if at < funcs.len() {
            assert(funcs[at as int] == rest[at - 1]);
        }
    }
}

proof fn lemma_put_struct(structs: Seq<StructView>, s: StructView)
    requires
        structs_ordered(structs),
    ensures
        structs_ordered(meta::put_struct(structs, s)),
        meta::put_struct(structs, s).contains(s),
        forall|x: StructView| #[trigger]
            meta::put_struct(structs, s).contains(x) && x != s ==> structs.contains(x),
        forall|x: StructView| #[trigger]
            structs.contains(x) && x.name != s.name ==> meta::put_struct(structs, s).contains(x),
{
    let at = meta::struct_place(structs, s.name) as int;
    let out = meta::put_struct(structs, s);
    lemma_struct_place(structs, s.name);
    // What stands behind the place has a later name, or the same at the place.
    assert forall|i: int| at < i < structs.len() implies text::text_less(
        s.name,
        (#[trigger] structs[i]).name,
    ) by {
        text::lemma_less_total(s.name, structs[at].name);
        if s.name != structs[at].name {
            text::lemma_less_transitive(s.name, structs[at].name, structs[i].name);
        }
    }
    if at < structs.len() {
        text::lemma_less_total(s.name, structs[at].name);
    }
    if at < structs.len() && structs[at].name == s.name {
        assert forall|i: int, j: int| 0 <= i < j < out.len() implies text::text_less(
            (#[trigger] out[i]).name,
            (#[trigger] out[j]).name,
        ) by {
            assert(text::text_less(structs[i].name, structs[j].name));
        }
        assert(out[at] == s);
        assert forall|x: StructView| #[trigger] out.contains(x) && x != s implies structs.contains(
            x,
        ) by {
            let i = choose|i: int| 0 <= i < out.len() && out[i] == x;
            assert(structs[i] == x);
        }
        assert forall|x: StructView| #[trigger]
            structs.contains(x) && x.name != s.name implies out.contains(x) by {
            let i = choose|i: int| 0 <= i < structs.len() && structs[i] == x;
            assert(out[i] == x);
        }
    } else {
        assert forall|i: int, j: int| 0 <= i < j < out.len() implies text::text_less(
            (#[trigger] out[i]).name,
            (#[trigger] out[j]).name,
        ) by {
            if i < at && j > at {
                assert(text::text_less(structs[i].name, structs[j - 1].name));
            } else if i < at && j < at {
                assert(text::text_less(structs[i].name, structs[j].name));
            } else if i > at {
                assert(text::text_less(structs[i - 1].name, structs[j - 1].name));
            } else if j == at {
                assert(out[i] == structs[i]);
            } else {
                assert(out[j] == structs[j - 1]);
            }
        }
        assert(out[at] == s);
        assert forall|x: StructView| #[trigger] out.contains(x) && x != s implies structs.contains(
            x,
        ) by {
            let i = choose|i: int| 0 <= i < out.len() && out[i] == x;
            if i < at {
                assert(structs[i] == x);
            } else {
                assert(structs[i - 1] == x);
            }
        }
        assert forall|x: StructView| #[trigger]
            structs.contains(x) && x.name != s.name implies out.contains(x) by {
            let i = choose|i: int| 0 <= i < structs.len() && structs[i] == x;
            if i < at {
                assert(out[i] == x);
            } else {
                assert(out[i + 1] == x);
            }
        }
    }
}

proof fn lemma_put_fn(funcs: Seq<FnView>, f: FnView)
    requires
        fns_ordered(funcs),
    ensures
        fns_ordered(meta::put_fn(funcs, f)),
        forall|x: FnView| #[trigger]
            meta::put_fn(funcs, f).contains(x) <==> (x == f || funcs.contains(x)),
{
    let at = meta::fn_place(funcs, f.name) as int;
    let out = meta::put_fn(funcs, f);
    lemma_fn_place(funcs, f.name);
    assert forall|i: int| at <= i < funcs.len() implies text::text_less(
        f.name,
        (#[trigger] funcs[i]).name,
    ) by {
        if i > at {
            text::lemma_less_total(funcs[at].name, funcs[i].name);
            if funcs[at].name != funcs[i].name {
                text::lemma_less_transitive(f.name, funcs[at].name, funcs[i].name);
            }
        }
    }
    assert forall|i: int, j: int| 0 <= i < j < out.len() implies !text::text_less(
        (#[trigger] out[j]).name,
        (#[trigger] out[i]).name,
    ) by {
        if i == at {
            assert(out[j] == funcs[j - 1]);
            if text::text_less(out[j].name, f.name) {
                text::lemma_less_transitive(f.name, out[j].name, f.name);
                text::lemma_less_irreflexive(f.name);
            }
        } else if j == at {
            assert(out[i] == funcs[i]);
        } else {
            let i0 = if i < at {
                i
            } else {
                i - 1
            };
            let j0 = if j < at {
                j
            } else {
                j - 1
            };
            assert(out[i] == funcs[i0] && out[j] == funcs[j0]);
        }
    }
    assert forall|x: FnView| #[trigger] out.contains(x) <==> (x == f || funcs.contains(x)) by {
        if out.contains(x) {
            let i = choose|i: int| 0 <= i < out.len() && out[i] == x;
            if i < at {
                assert(funcs[i] == x);
            } else if i > at {
                assert(funcs[i - 1] == x);
            }
        }
        if x == f {
            assert(out[at] == x);
        } else if funcs.contains(x) {
            let i = choose|i: int| 0 <= i < funcs.len() && funcs[i] == x;
            if i < at {
                assert(out[i] == x);
            } else {
                assert(out[i + 1] == x);
            }
        }
    }
}

/// Whatever the records, what is collected from them is ordered by name, no
/// struct name stands twice, and no function is lost or made up.
pub proof fn law_collected_is_ordered(records: Seq<RecordView>)
    ensures
        structs_ordered(meta::structs_of(records)),
        fns_ordered(meta::fns_of(records)),
        forall|f: FnView| #[trigger]
            meta::fns_of(records).contains(f) <==> records.contains(RecordView::Function(f)),
        forall|s: StructView| #[trigger]
            meta::structs_of(records).contains(s) ==> records.contains(RecordView::Struct(s)),
    decreases records.len(),
{
    if records.len() > 0 {
        let front = records.drop_last();
        law_collected_is_ordered(front);
        let last = records.last();
        assert(records[records.len() - 1] == last);
        assert forall|r: RecordView| #[trigger]
            records.contains(r) <==> (r == last || front.contains(r)) by {
            if records.contains(r) {
                let i = choose|i: int| 0 <= i < records.len() && records[i] == r;
                if i < front.len() {
                    assert(front[i] == r);
                }
            }
            if front.contains(r) {
                let i = choose|i: int| 0 <= i < front.len() && front[i] == r;
                assert(records[i] == r);
            }
        }
        match last {
            RecordView::Struct(s) => {
                lemma_put_struct(meta::structs_of(front), s);
            },
            RecordView::Function(f) => {
                lemma_put_fn(meta::fns_of(front), f);
            },
        }
    }
}

/// No two records of functions have the same name, nor two of structs.
pub open spec fn names_distinct(records: Seq<RecordView>) -> bool {
    forall|i: int, j: int|
        0 <= i < j < records.len() ==> match (#[trigger] records[i], #[trigger] records[j]) {
            (RecordView::Function(a), RecordView::Function(b)) => a.name != b.name,
            (RecordView::Struct(a), RecordView::Struct(b)) => a.name != b.name,
            _ => true,
        }
}

proof fn lemma_distinct_records(records: Seq<RecordView>)
    requires
        names_distinct(records),
    ensures
        forall|s: StructView| #[trigger]
            records.contains(RecordView::Struct(s)) ==> meta::structs_of(records).contains(s),
        forall|i: int, j: int|
            0 <= i < j < meta::fns_of(records).len() ==> text::text_less(
                (#[trigger] meta::fns_of(records)[i]).name,
                (#[trigger] meta::fns_of(records)[j]).name,
            ),
    decreases records.len(),
{
    if records.len() > 0 {
        let front = records.drop_last();
        let last = records.last();
        assert(records[records.len() - 1] == last);
        assert forall|i: int, j: int| 0 <= i < j < front.len() implies match (
            #[trigger] front[i],
            #[trigger] front[j],
        ) {
            (RecordView::Function(a), RecordView::Function(b)) => a.name != b.name,
            (RecordView::Struct(a), RecordView::Struct(b)) => a.name != b.name,
            _ => true,
        } by {
            assert(front[i] == records[i] && front[j] == records[j]);
        }
        lemma_distinct_records(front);
        law_collected_is_ordered(front);
        law_collected_is_ordered(records);
        assert forall|s: StructView| #[trigger]
            records.contains(RecordView::Struct(s)) implies meta::structs_of(records).contains(
            s,
        ) by {
            let i = choose|i: int| 0 <= i < records.len() && records[i] == RecordView::Struct(s);
            if i < front.len() {
                assert(front[i] == RecordView::Struct(s));
                assert(front.contains(RecordView::Struct(s)));
                assert(records[i] == RecordView::Struct(s));
            }
            if let RecordView::Struct(t) = last {
                lemma_put_struct(meta::structs_of(front), t);
            }
        }
        if let RecordView::Function(f) = last {
            let before = meta::fns_of(front);
            let at = meta::fn_place(before, f.name) as int;
            let out = meta::fns_of(records);
            lemma_fn_place(before, f.name);
            assert forall|k: int| 0 <= k < before.len() implies (#[trigger] before[k]).name
                != f.name by {
                assert(before.contains(before[k]));
                let r = RecordView::Function(before[k]);
                assert(front.contains(r));
                let i = choose|i: int| 0 <= i < front.len() && front[i] == r;
                assert(records[i] == r);
            }
            assert forall|i: int, j: int| 0 <= i < j < out.len() implies text::text_less(
                (#[trigger] out[i]).name,
                (#[trigger] out[j]).name,
            ) by {
                text::lemma_less_total(out[i].name, out[j].name);
                if i == at {
                    assert(out[j] == before[j - 1]);
                } else if j == at {
                    assert(out[i] == before[i]);
                } else {
                    let i0 = if i < at {
                        i
                    } else {
                        i - 1
                    };
                    let j0 = if j < at {
                        j
                    } else {
                        j - 1
                    };
                    assert(out[i] == before[i0] && out[j] == before[j0]);
                }
            }
        }
    }
}

proof fn lemma_same_structs(a: Seq<StructView>, b: Seq<StructView>)
    requires
        structs_ordered(a),
        structs_ordered(b),
        forall|x: StructView| #[trigger] a.contains(x) <==> #[trigger] b.contains(x),
    ensures
        a == b,
    decreases a.len(),
{
    if a.len() == 0 {
        if b.len() > 0 {
            assert(b.contains(b[0]));
            assert(a.contains(b[0]));
        }
        assert(a =~= b);
    } else {
        let x = a[a.len() - 1];
        assert(a.contains(x));
        assert(b.contains(x));
        let y = b[b.len() - 1];
        assert(b.contains(y));
        assert(a.contains(y));
        let i = choose|i: int| 0 <= i < b.len() && b[i] == x;
        let j = choose|j: int| 0 <= j < a.len() && a[j] == y;
        if i < b.len() - 1 && j < a.len() - 1 {
            text::lemma_less_transitive(x.name, y.name, x.name);
            text::lemma_less_irreflexive(x.name);
        }
        assert(x == y);
        let a0 = a.drop_last();
        let b0 = b.drop_last();
        assert forall|z: StructView| #[trigger] a0.contains(z) <==> #[trigger] b0.contains(z) by {
            if a0.contains(z) {
                let k = choose|k: int| 0 <= k < a0.len() && a0[k] == z;
                assert(a[k] == z);
                assert(a.contains(z));
                assert(b.contains(z));
                let m = choose|m: int| 0 <= m < b.len() && b[m] == z;
                text::lemma_less_irreflexive(x.name);
                assert(m < b0.len());
                assert(b0[m] == z);
            }
            if b0.contains(z) {
                let k = choose|k: int| 0 <= k < b0.len() && b0[k] == z;
                assert(b[k] == z);
                assert(b.contains(z));
                assert(a.contains(z));
                let m = choose|m: int| 0 <= m < a.len() && a[m] == z;
                text::lemma_less_irreflexive(x.name);
                assert(m < a0.len());
                assert(a0[m] == z);
            }
        }
        lemma_same_structs(a0, b0);
        assert(a =~= a0.push(x));
        assert(b =~= b0.push(y));
    }
}

spec fn as_struct(f: FnView) -> StructView {
    StructView { name: f.name, fields: f.args.push((f.name, f.ret)) }
}

proof fn lemma_as_struct(a: FnView, b: FnView)
    requires
        as_struct(a) == as_struct(b),
    ensures
        a == b,
{
    let x = a.args.push((a.name, a.ret));
    let y = b.args.push((b.name, b.ret));
    assert(x == y);
    assert(x.last() == y.last());
    assert(x.drop_last() =~= a.args);
    assert(y.drop_last() =~= b.args);
}

proof fn lemma_same_fns(a: Seq<FnView>, b: Seq<FnView>)
    requires
        forall|i: int, j: int|
            0 <= i < j < a.len() ==> text::text_less(
                (#[trigger] a[i]).name,
                (#[trigger] a[j]).name,
            ),
        forall|i: int, j: int|
            0 <= i < j < b.len() ==> text::text_less(
                (#[trigger] b[i]).name,
                (#[trigger] b[j]).name,
            ),
        forall|x: FnView| #[trigger] a.contains(x) <==> #[trigger] b.contains(x),
    ensures
        a == b,
{
    let p = a.map_values(|f: FnView| as_struct(f));
    let q = b.map_values(|f: FnView| as_struct(f));
    assert forall|x: StructView| #[trigger] p.contains(x) <==> #[trigger] q.contains(x) by {
        if p.contains(x) {
            let i = choose|i: int| 0 <= i < p.len() && p[i] == x;
            assert(a.contains(a[i]));
            assert(b.contains(a[i]));
            let j = choose|j: int| 0 <= j < b.len() && b[j] == a[i];
            assert(q[j] == x);
        }
        if q.contains(x) {
            let i = choose|i: int| 0 <= i < q.len() && q[i] == x;
            assert(b.contains(b[i]));
            assert(a.contains(b[i]));
            let j = choose|j: int| 0 <= j < a.len() && a[j] == b[i];
            assert(p[j] == x);
        }
    }
    lemma_same_structs(p, q);
    assert(a.len() == b.len());
    assert forall|i: int| 0 <= i < a.len() implies a[i] == b[i] by {
        assert(p[i] == q[i]);
        lemma_as_struct(a[i], b[i]);
    }
    assert(a =~= b);
}

/// The order of the records does not matter: the same records in another order
/// say the same, as long as no name stands twice.
pub proof fn law_order_of_records_does_not_matter(a: Seq<RecordView>, b: Seq<RecordView>)
    requires
        names_distinct(a),
        names_distinct(b),
        forall|r: RecordView| #[trigger] a.contains(r) <==> #[trigger] b.contains(r),
    ensures
        meta::collected(a) == meta::collected(b),
{
    law_collected_is_ordered(a);
    law_collected_is_ordered(b);
    lemma_distinct_records(a);
    lemma_distinct_records(b);
    assert forall|s: StructView| #[trigger]
        meta::structs_of(a).contains(s) <==> #[trigger] meta::structs_of(b).contains(s) by {
        assert(a.contains(RecordView::Struct(s)) <==> b.contains(RecordView::Struct(s)));
    }
    assert forall|f: FnView| #[trigger]
        meta::fns_of(a).contains(f) <==> #[trigger] meta::fns_of(b).contains(f) by {
        assert(a.contains(RecordView::Function(f)) <==> b.contains(RecordView::Function(f)));
    }
    lemma_same_structs(meta::structs_of(a), meta::structs_of(b));
    lemma_same_fns(meta::fns_of(a), meta::fns_of(b));
}

proof fn lemma_fields_named(structs: Seq<StructView>, name: Seq<char>)
    requires
        structs_ordered(structs),
    ensures
        match fields_named(structs, name) {
            Some(fields) => structs.contains(StructView { name, fields }),
            None => forall|x: StructView| #[trigger] structs.contains(x) ==> x.name != name,
        },
        forall|x: StructView| #[trigger]
            structs.contains(x) && x.name == name ==> fields_named(structs, name) == Some(
                x.fields,
            ),
    decreases structs.len(),
{
    if structs.len() > 0 {
        let front = structs.drop_last();
        let last = structs.last();
        assert(structs[structs.len() - 1] == last);
        assert forall|i: int, j: int| 0 <= i < j < front.len() implies text::text_less(
            (#[trigger] front[i]).name,
            (#[trigger] front[j]).name,
        ) by {
            assert(front[i] == structs[i] && front[j] == structs[j]);
        }
        lemma_fields_named(front, name);
        if last.name == name {
            assert(last == StructView { name, fields: last.fields });
        } else if let Some(fields) = fields_named(front, name) {
            let x = StructView { name, fields };
            let i = choose|i: int| 0 <= i < front.len() && front[i] == x;
            assert(structs[i] == x);
        }
        assert forall|x: StructView| #[trigger]
            structs.contains(x) && x.name == name implies fields_named(structs, name) == Some(
            x.fields,
        ) by {
            let i = choose|i: int| 0 <= i < structs.len() && structs[i] == x;
            if i < front.len() {
                assert(front[i] == x);
                assert(front.contains(x));
                if last.name == name {
                    assert(text::text_less(structs[i].name, structs[structs.len() - 1].name));
                    text::lemma_less_irreflexive(name);
                }
            }
        }
    }
}

/// Of two structs with the same name the later one counts: after a struct is
/// put among others, its name finds its fields and every other name finds what
/// it found before.
pub proof fn law_later_struct_counts(structs: Seq<StructView>, s: StructView, name: Seq<char>)
    requires
        structs_ordered(structs),
    ensures
        fields_named(meta::put_struct(structs, s), name) == if name == s.name {
            Some(s.fields)
        } else {
            fields_named(structs, name)
        },
{
    let out = meta::put_struct(structs, s);
    lemma_put_struct(structs, s);
    lemma_fields_named(structs, name);
    lemma_fields_named(out, name);
    if name != s.name {
        match fields_named(structs, name) {
            Some(fields) => {
                assert(out.contains(StructView { name, fields }));
            },
            None => {
                if let Some(fields) = fields_named(out, name) {
                    assert(structs.contains(StructView { name, fields }));
                }
            },
        }
    }
}

/// A record adds what it says and nothing else: a function goes behind those whose
/// names are not behind its own, so that functions of one name stay in the order of
/// their records; a struct goes among the structs, where its name finds its fields
/// from then on.
pub proof fn law_record_adds_what_it_says(
    records: Seq<RecordView>,
    f: FnView,
    s: StructView,
    name: Seq<char>,
) -> (at: int)
    ensures
        ({
            let before = meta::fns_of(records);
            &&& 0 <= at <= before.len()
            &&& meta::fns_of(records.push(RecordView::Function(f))) == before.insert(at, f)
            &&& forall|i: int|
                0 <= i < at ==> !text::text_less(f.name, (#[trigger] before[i]).name)
            &&& forall|i: int|
                at <= i < before.len() ==> text::text_less(f.name, (#[trigger] before[i]).name)
            &&& meta::fns_of(records.push(RecordView::Struct(s))) == before
        }),
        ({
            let before = meta::structs_of(records);
            let after = meta::structs_of(records.push(RecordView::Struct(s)));
            &&& meta::structs_of(records.push(RecordView::Function(f))) == before
            &&& fields_named(after, s.name) == Some(s.fields)
            &&& name != s.name ==> fields_named(after, name) == fields_named(before, name)
        }),
        meta::fns_of(Seq::empty()).len() == 0,
        meta::structs_of(Seq::empty()).len() == 0,
{
    let before = meta::fns_of(records);
    law_collected_is_ordered(records);
    lemma_fn_place(before, f.name);
    let at = meta::fn_place(before, f.name) as int;
    assert forall|i: int| at <= i < before.len() implies text::text_less(
        f.name,
        (#[trigger] before[i]).name,
    ) by {
        if i > at {
            text::lemma_less_total(before[at].name, before[i].name);
            if before[at].name != before[i].name {
                text::lemma_less_transitive(f.name, before[at].name, before[i].name);
            }
        }
    }
    assert(records.push(RecordView::Function(f)).drop_last() =~= records);
    assert(records.push(RecordView::Struct(s)).drop_last() =~= records);
    law_later_struct_counts(meta::structs_of(records), s, s.name);
    law_later_struct_counts(meta::structs_of(records), s, name);
    at
}

// Records and what is collected from them.

/// A record as it is written: the names in it, and its types as they are spelled.
pub enum Written {
    /// The name, the spelling of the result and the arguments.
    Function(Seq<char>, Seq<char>, Seq<(Seq<char>, Seq<char>)>),
    /// The name and the fields.
    Struct(Seq<char>, Seq<(Seq<char>, Seq<char>)>),
}

/// The bytes of a record.
pub open spec fn encoded(w: Written) -> Seq<u8> {
    match w {
        Written::Function(name, ret, pairs) => meta::record_bytes(
            meta::fn_fields(name, ret, pairs),
        ),
        Written::Struct(name, pairs) => meta::record_bytes(meta::struct_fields(name, pairs)),
    }
}

/// The bytes of the records, one behind the other.
pub open spec fn blob_of(list: Seq<Written>) -> Seq<u8>
    decreases list.len(),
{
    if list.len() == 0 {
        Seq::empty()
    } else {
        blob_of(list.drop_last()) + encoded(list.last())
    }
}

/// A record that can be read: it has a name, no separator stands in a name or in
/// the spelling of a type, every type is one, and the length fits into its field.
pub open spec fn readable(w: Written) -> bool {
    match w {
        Written::Function(name, ret, pairs) => {
            &&& name.len() > 0
            &&& !name.contains(meta::FIELD_SEP)
            &&& !ret.contains(meta::FIELD_SEP)
            &&& meta::parsed(ret)
            &&& meta::pairs_fit(pairs)
            &&& meta::payload_of(meta::fn_fields(name, ret, pairs)).len() < 0x1_0000_0000
        },
        Written::Struct(name, pairs) => {
            &&& name.len() > 0
            &&& !name.contains(meta::FIELD_SEP)
            &&& meta::pairs_fit(pairs)
            &&& meta::payload_of(meta::struct_fields(name, pairs)).len() < 0x1_0000_0000
        },
    }
}

/// What a record says.
pub open spec fn meant(w: Written) -> RecordView {
    match w {
        Written::Function(name, ret, pairs) => RecordView::Function(
            FnView { name, args: meta::typed_pairs(pairs), ret: ty::parsed_type(ret)->Ok_0 },
        ),
        Written::Struct(name, pairs) => RecordView::Struct(
            StructView { name, fields: meta::typed_pairs(pairs) },
        ),
    }
}

/// What the records say, one by one.
pub open spec fn all_meant(list: Seq<Written>) -> Seq<RecordView> {
    list.map_values(|w: Written| meant(w))
}

/// The records of a blob are those that it was put together from.
pub proof fn law_blob_is_read_back(list: Seq<Written>)
    requires
        forall|i: int| 0 <= i < list.len() ==> readable(#[trigger] list[i]),
    ensures
        meta::records_of(blob_of(list)) == Ok::<Seq<RecordView>, Seq<char>>(all_meant(list)),
        meta::metadata_of(blob_of(list)) == Ok::<MetaView, Seq<char>>(
            meta::collected(all_meant(list)),
        ),
    decreases list.len(),
{
    if list.len() == 0 {
        assert(all_meant(list) =~= Seq::empty());
    } else {
        let front = list.drop_last();
        let last = list[list.len() - 1];
        assert forall|i: int| 0 <= i < front.len() implies readable(#[trigger] front[i]) by {
            assert(front[i] == list[i]);
        }
        law_blob_is_read_back(front);
        match last {
            Written::Function(name, ret, pairs) => {
                meta::law_fn_record_is_read_back(name, ret, pairs);
            },
            Written::Struct(name, pairs) => {
                meta::law_struct_record_is_read_back(name, pairs);
            },
        }
        meta::law_records_concatenate(blob_of(front), encoded(last));
        assert(all_meant(list) =~= all_meant(front) + seq![meant(last)]);
    }
}

/// From records with distinct names everything is collected and nothing else:
/// each function once, with its result and its arguments in order, each struct
/// under its name with its fields in order. From no records nothing is.
pub proof fn law_records_are_collected(list: Seq<Written>)
    requires
        forall|i: int| 0 <= i < list.len() ==> readable(#[trigger] list[i]),
        names_distinct(all_meant(list)),
    ensures
        meta::metadata_of(blob_of(list)) is Ok,
        ({
            let m = meta::metadata_of(blob_of(list))->Ok_0;
            let said = all_meant(list);
            &&& m.funcs.no_duplicates()
            &&& m.structs.no_duplicates()
            &&& structs_ordered(m.structs)
            &&& fns_ordered(m.funcs)
            &&& forall|f: FnView| #[trigger]
                m.funcs.contains(f) <==> said.contains(RecordView::Function(f))
            &&& forall|s: StructView| #[trigger]
                m.structs.contains(s) <==> said.contains(RecordView::Struct(s))
            &&& forall|s: StructView| #[trigger]
                said.contains(RecordView::Struct(s)) ==> fields_named(m.structs, s.name) == Some(
                    s.fields,
                )
            &&& list.len() == 0 ==> m.funcs.len() == 0 && m.structs.len() == 0
        }),
{
    let said = all_meant(list);
    let m = meta::collected(said);
    law_blob_is_read_back(list);
    law_collected_is_ordered(said);
    lemma_distinct_records(said);
    assert forall|i: int, j: int|
        0 <= i < m.funcs.len() && 0 <= j < m.funcs.len() && i != j implies m.funcs[i]
        != m.funcs[j] by {
        text::lemma_less_irreflexive(m.funcs[i].name);
        if i < j {
            assert(text::text_less(m.funcs[i].name, m.funcs[j].name));
        } else {
            assert(text::text_less(m.funcs[j].name, m.funcs[i].name));
        }
    }
    assert forall|i: int, j: int|
        0 <= i < m.structs.len() && 0 <= j < m.structs.len() && i != j implies m.structs[i]
        != m.structs[j] by {
        text::lemma_less_irreflexive(m.structs[i].name);
        if i < j {
            assert(text::text_less(m.structs[i].name, m.structs[j].name));
        } else {
            assert(text::text_less(m.structs[j].name, m.structs[i].name));
        }
    }
    assert forall|s: StructView| #[trigger]
        said.contains(RecordView::Struct(s)) implies fields_named(m.structs, s.name) == Some(
        s.fields,
    ) by {
        assert(m.structs.contains(s));
        lemma_fields_named(m.structs, s.name);
    }
}

} // verus!
