use vstd::prelude::*;

verus! {

/// A map from keys to result lists, as its entries: keys are unique and the
/// order of first insertion is kept.
pub open spec fn keys_unique(entries: Seq<(String, Vec<i32>)>) -> bool {
    forall|i: int, j: int| 0 <= i < j < entries.len() ==> entries[i].0@ != entries[j].0@
}

/// The entries after setting `key` to `value`: an entry with that key takes
/// the new value in place, otherwise the pair is appended.
pub open spec fn map_insert(entries: Seq<(String, Vec<i32>)>, key: String, value: Vec<i32>) -> Seq<
    (String, Vec<i32>),
> {
    if exists|i: int| 0 <= i < entries.len() && entries[i].0@ == key@ {
        let i = choose|i: int| 0 <= i < entries.len() && entries[i].0@ == key@;
        entries.update(i, (entries[i].0, value))
    } else {
        entries.push((key, value))
    }
}

/// The results of a batch update: per key, the result of each operation,
/// and an error code for the whole batch.
pub struct DataShareBatchUpdateParamOut {
    pub results: Vec<(String, Vec<i32>)>,
    pub error_code: i32,
}

impl DataShareBatchUpdateParamOut {
    pub open spec fn wf(&self) -> bool {
        keys_unique(self.results@)
    }

    pub fn new() -> (r: Self)
        ensures
            r.wf(),
            r.error_code == 0,
            r.results@.len() == 0,
    {
        DataShareBatchUpdateParamOut { error_code: 0, results: Vec::new() }
    }

    pub fn as_ref(&self) -> (r: &Vec<(String, Vec<i32>)>)
        ensures
            *r == self.results,
    {
        &self.results
    }
}

pub fn data_share_batch_update_param_out_push(
    param_out: &mut DataShareBatchUpdateParamOut,
    key: String,
    result: Vec<i32>,
)
    requires
        old(param_out).wf(),
    ensures
        final(param_out).wf(),
        final(param_out).error_code == old(param_out).error_code,
        final(param_out).results@ == map_insert(old(param_out).results@, key, result),
{
    let ghost old_r = param_out.results@;
    let mut i: usize = 0;
    while i < param_out.results.len()
        invariant
            param_out.results@ == old_r,
            *param_out == *old(param_out),
            keys_unique(old_r),
            i <= old_r.len(),
            forall|j: int| 0 <= j < i ==> old_r[j].0@ != key@,
        decreases old_r.len() - i,
    {
        if param_out.results[i].0 == key {
            let k = param_out.results[i].0.clone();
            param_out.results.set(i, (k, result));
            proof {
                let c = choose|c: int| 0 <= c < old_r.len() && old_r[c].0@ == key@;
                assert(c == i) by {
                    if c != i {
                        assert(old_r[c].0@ != old_r[i as int].0@);
                    }
                }
                assert(param_out.results@ =~= old_r.update(i as int, (old_r[i as int].0, result)));
                assert forall|a: int, b: int|
                    0 <= a < b < param_out.results@.len() implies param_out.results@[a].0@
                    != param_out.results@[b].0@ by {
                    assert(param_out.results@[a].0 == old_r[a].0);
                    assert(param_out.results@[b].0 == old_r[b].0);
                }
            }
            return;
        }
        i = i + 1;
    }
    param_out.results.push((key, result));
    proof {
        assert forall|a: int, b: int|
            0 <= a < b < param_out.results@.len() implies param_out.results@[a].0@
            != param_out.results@[b].0@ by {
            if b == old_r.len() {
                assert(old_r[a].0@ != key@);
            } else {
                assert(param_out.results@[a] == old_r[a]);
                assert(param_out.results@[b] == old_r[b]);
            }
        }
    }
}

pub fn data_share_batch_update_param_out_error_code(
    param_out: &mut DataShareBatchUpdateParamOut,
    error_code: i32,
)
    ensures
        final(param_out).error_code == error_code,
        final(param_out).results == old(param_out).results,
{
    param_out.error_code = error_code;
}

/// The per-key result lists that an extension hands back to the engine.
pub struct ExtensionBatchUpdateParamIn {
    pub data: Vec<(String, Vec<i32>)>,
}

impl ExtensionBatchUpdateParamIn {
    /// The lists form a map: no key appears twice.
    pub open spec fn wf(&self) -> bool {
        keys_unique(self.data@)
    }

    pub fn new() -> (r: Self)
        ensures
            r.wf(),
            r.data@.len() == 0,
    {
        ExtensionBatchUpdateParamIn { data: Vec::new() }
    }

    pub fn as_ref(&self) -> (r: &Vec<(String, Vec<i32>)>)
        ensures
            *r == self.data,
    {
        &self.data
    }
}

/// All the values of the lists, one list after another.
pub open spec fn flatten(entries: Seq<(String, Vec<i32>)>) -> Seq<i32>
    decreases entries.len(),
{
    if entries.len() == 0 {
        Seq::empty()
    } else {
        flatten(entries.drop_last()) + entries.last().1@
    }
}

/// Lays the lists out flat for the engine: the keys in order, the values of
/// all lists one after another, and each list's length as its step.
pub fn extension_batch_update_param_in_get_value(
    param_in: &ExtensionBatchUpdateParamIn,
    vec_key: &mut Vec<String>,
    vec_value: &mut Vec<i32>,
    vec_steps: &mut Vec<i32>,
)
    requires
        forall|i: int| 0 <= i < param_in.data@.len() ==> (#[trigger] param_in.data@[i]).1@.len() <= i32::MAX,
    ensures
        final(vec_key)@ == old(vec_key)@ + param_in.data@.map_values(|e: (String, Vec<i32>)| e.0),
        final(vec_steps)@ == old(vec_steps)@ + param_in.data@.map_values(
            |e: (String, Vec<i32>)| e.1@.len() as i32,
        ),
        final(vec_value)@ == old(vec_value)@ + flatten(param_in.data@),
        param_in.wf() ==> forall|i: int, j: int|
            old(vec_key)@.len() <= i < j < final(vec_key)@.len() ==> final(vec_key)@[i]@ != final(vec_key)@[j]@,
{
    let ghost d = param_in.data@;
    let mut i: usize = 0;
    while i < param_in.data.len()
        invariant
            d == param_in.data@,
            forall|k: int| 0 <= k < d.len() ==> (#[trigger] d[k]).1@.len() <= i32::MAX,
            i <= d.len(),
            vec_key@ == old(vec_key)@ + d.subrange(0, i as int).map_values(|e: (String, Vec<i32>)| e.0),
            vec_steps@ == old(vec_steps)@ + d.subrange(0, i as int).map_values(
                |e: (String, Vec<i32>)| e.1@.len() as i32,
            ),
            vec_value@ == old(vec_value)@ + flatten(d.subrange(0, i as int)),
        decreases d.len() - i,
    {
        let (key, value) = (&param_in.data[i].0, &param_in.data[i].1);
        vec_key.push(key.clone());
        vec_steps.push(value.len() as i32);
        let ghost before = vec_value@;
        let mut j: usize = 0;
        while j < value.len()
            invariant
                j <= value@.len(),
                vec_value@ == before + value@.subrange(0, j as int),
            decreases value@.len() - j,
        {
            vec_value.push(value[j]);
            j = j + 1;
            assert(vec_value@ =~= before + value@.subrange(0, j as int));
        }
        proof {
            let s0 = d.subrange(0, i as int);
            let s1 = d.subrange(0, i + 1);
            assert(s1.drop_last() =~= s0);
            assert(s1.last() == d[i as int]);
            assert(value@.subrange(0, value@.len() as int) =~= value@);
            assert(vec_value@ =~= old(vec_value)@ + flatten(s1));
            assert(s1.map_values(|e: (String, Vec<i32>)| e.0) =~= s0.map_values(|e: (String, Vec<i32>)| e.0).push(d[i as int].0));
            assert(s1.map_values(|e: (String, Vec<i32>)| e.1@.len() as i32) =~= s0.map_values(
                |e: (String, Vec<i32>)| e.1@.len() as i32,
            ).push(d[i as int].1@.len() as i32));
        }
        i = i + 1;
    }
    assert(d.subrange(0, d.len() as int) =~= d);
    assert forall|a: int, b: int|
        param_in.wf() && old(vec_key)@.len() <= a < b < vec_key@.len() implies vec_key@[a]@ != vec_key@[b]@ by {
        let n = old(vec_key)@.len() as int;
        assert(vec_key@[a] == d[a - n].0);
        assert(vec_key@[b] == d[b - n].0);
    }
}

} // verus!
