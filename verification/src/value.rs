//! The values that programs compute with, and their mathematical model.
use vstd::prelude::*;

verus! {

/// A value as a mathematical object: a string is its characters, a value stack
/// the models of its elements, bottom first.
pub enum Val {
    Str(Seq<char>),
    Num(i32),
    Stack(Seq<Val>),
}

/// A value on the stack or in a variable.
#[derive(Debug)]
pub enum MValue {
    String(String),
    Number(i32),
    VStack(Vec<MValue>),
}

impl MValue {
    pub open spec fn model(self) -> Val
        decreases self,
    {
        match self {
            MValue::String(s) => Val::Str(s@),
            MValue::Number(n) => Val::Num(n),
            MValue::VStack(v) => Val::Stack(models(v@)),
        }
    }
}

/// The models of a sequence of values.
pub open spec fn models(s: Seq<MValue>) -> Seq<Val>
    decreases s,
{
    if s.len() == 0 {
        seq![]
    } else {
        models(s.subrange(0, s.len() - 1)).push(s[s.len() - 1].model())
    }
}

/// `models` works element by element.
pub broadcast proof fn lemma_models(s: Seq<MValue>)
    ensures
        #[trigger] models(s) == Seq::new(s.len(), |i: int| s[i].model()),
    decreases s.len(),
{
    if s.len() > 0 {
        let p = s.subrange(0, s.len() - 1);
        lemma_models(p);
        assert(models(s) =~= Seq::new(s.len(), |i: int| s[i].model()));
    } else {
        assert(models(s) =~= Seq::new(s.len(), |i: int| s[i].model()));
    }
}

pub proof fn lemma_models_push(s: Seq<MValue>, v: MValue)
    ensures
        models(s.push(v)) == models(s).push(v.model()),
{
    lemma_models(s);
    lemma_models(s.push(v));
    assert(models(s.push(v)) =~= models(s).push(v.model()));
}

pub proof fn lemma_models_drop_last(s: Seq<MValue>)
    requires
        s.len() > 0,
    ensures
        models(s.drop_last()) == models(s).drop_last(),
        models(s).last() == s.last().model(),
{
    lemma_models(s);
    lemma_models(s.drop_last());
    assert(models(s.drop_last()) =~= models(s).drop_last());
}

pub proof fn lemma_models_reverse(s: Seq<MValue>)
    ensures
        models(s.reverse()) == models(s).reverse(),
{
    lemma_models(s);
    lemma_models(s.reverse());
    assert(models(s.reverse()) =~= models(s).reverse());
}

/// A copy of `v`, with the same model.
#[verifier::loop_isolation(false)]
pub fn copy_value(v: &MValue) -> (r: MValue)
    ensures
        r.model() == v.model(),
    decreases v,
{
    match v {
        MValue::String(s) => MValue::String(s.clone()),
        MValue::Number(n) => MValue::Number(*n),
        MValue::VStack(items) => {
            let mut out: Vec<MValue> = Vec::new();
            let mut i: usize = 0;
            while i < items.len()
                invariant
                    i <= items@.len(),
                    models(out@) == models(items@.take(i as int)),
                decreases items@.len() - i,
            {
                proof {
                    assert(decreases_to!(*items => items@));
                    assert(decreases_to!(items@ => items@[i as int]));
                    assert(decreases_to!(*v => (*v)->VStack_0));
                }
                let c = copy_value(&items[i]);
                proof {
                    lemma_models_push(out@, c);
                    lemma_models_push(items@.take(i as int), items@[i as int]);
                    assert(items@.take(i as int).push(items@[i as int]) =~= items@.take(i + 1));
                }
                out.push(c);
                i = i + 1;
            }
            assert(items@.take(items@.len() as int) =~= items@);
            MValue::VStack(out)
        },
    }
}

impl Clone for MValue {
    fn clone(&self) -> (r: MValue)
        ensures
            r.model() == self.model(),
    {
        copy_value(self)
    }
}

/// Reverses a vector in place.
pub fn reverse_vec<T>(v: &mut Vec<T>)
    ensures
        final(v)@ == old(v)@.reverse(),
{
    let mut out: Vec<T> = Vec::new();
    let ghost orig = v@;
    while v.len() > 0
        invariant
            out@ + v@.reverse() == orig.reverse(),
        decreases v@.len(),
    {
        let ghost before = v@;
        match v.pop() {
            Some(x) => {
                out.push(x);
                proof {
                    assert(before.reverse() =~= seq![x] + v@.reverse());
                    assert(out@ + v@.reverse() =~= out@.drop_last() + before.reverse());
                }
            },
            None => {},
        }
    }
    assert(out@ =~= out@ + v@.reverse());
    *v = out;
}

} // verus!
