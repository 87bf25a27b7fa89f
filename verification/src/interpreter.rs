//! The statement interpreter.
//!
//! A program is a newline-separated list of lines.  A line whose first
//! non-space character is `#` is a comment.  Every other line is tokenized
//! and read keyword by keyword: `img <name>` resolves a name against the
//! asset catalog and makes it the current image, `pos` and `size` bind a
//! pair of parameters to the current image, and the effect keywords append
//! a parametrized effect to the current image's chain.  A malformed line or
//! statement is dropped silently; the whole pass always yields a registry.

use crate::line_parser::parse_line;
use crate::line_parser::parse_line_v;
use crate::line_parser::scan_until;
use crate::line_parser::ParserResult;
use crate::line_parser::TokV;
use crate::parameter::bounce_deg_inc_spec;
use crate::parameter::param_wf;
use crate::parameter::ramp_inc_spec;
use crate::parameter::BounceParameter;
use crate::parameter::BounceV;
use crate::parameter::ChooseParameter;
use crate::parameter::CycleParameter;
use crate::parameter::CycleV;
use crate::parameter::ParamV;
use crate::parameter::Parameter;
use crate::parameter::RampParameter;
use crate::parameter::RampV;
use crate::parameter::StaticParameter;
use crate::fixed::sat64;
use vstd::prelude::*;

verus! {

// ---------------------------------------------------------------------------
// Scene data
// ---------------------------------------------------------------------------
/// A visual effect: parameter generators feeding one image operation.
pub enum Effect {
    Crop(Parameter, Parameter, Parameter, Parameter),
    Blur(Parameter),
    Opacity(Parameter),
    Brighten(Parameter),
    HueRot(Parameter),
    Contrast(Parameter),
    Scatter(Parameter),
    Brownian(Parameter),
}

/// An effect, at the specification level.
pub ghost enum EffV {
    Crop(ParamV, ParamV, ParamV, ParamV),
    Blur(ParamV),
    Opacity(ParamV),
    Brighten(ParamV),
    HueRot(ParamV),
    Contrast(ParamV),
    Scatter(ParamV),
    Brownian(ParamV),
}

impl View for Effect {
    type V = EffV;

    open spec fn view(&self) -> EffV {
        match self {
            Effect::Crop(a, b, c, d) => EffV::Crop(a@, b@, c@, d@),
            Effect::Blur(a) => EffV::Blur(a@),
            Effect::Opacity(a) => EffV::Opacity(a@),
            Effect::Brighten(a) => EffV::Brighten(a@),
            Effect::HueRot(a) => EffV::HueRot(a@),
            Effect::Contrast(a) => EffV::Contrast(a@),
            Effect::Scatter(a) => EffV::Scatter(a@),
            Effect::Brownian(a) => EffV::Brownian(a@),
        }
    }
}

/// The interpreted state of one program text: resolved images, their
/// position and size bindings, and their ordered effect chains.
pub struct SceneRegistry {
    pub images: Vec<String>,
    pub positions: Vec<(String, Parameter, Parameter)>,
    pub sizes: Vec<(String, Parameter, Parameter)>,
    pub effects: Vec<(String, Vec<Effect>)>,
}

/// The registry, at the specification level.  The binding lists are
/// association lists with unique keys; `alist_set` is the map update.
pub ghost struct RegV {
    pub images: Seq<Seq<char>>,
    pub positions: Seq<(Seq<char>, (ParamV, ParamV))>,
    pub sizes: Seq<(Seq<char>, (ParamV, ParamV))>,
    pub effects: Seq<(Seq<char>, Seq<EffV>)>,
}

impl View for SceneRegistry {
    type V = RegV;

    open spec fn view(&self) -> RegV {
        RegV {
            images: self.images@.map_values(|s: String| s@),
            positions: self.positions@.map_values(
                |e: (String, Parameter, Parameter)| (e.0@, (e.1@, e.2@)),
            ),
            sizes: self.sizes@.map_values(
                |e: (String, Parameter, Parameter)| (e.0@, (e.1@, e.2@)),
            ),
            effects: self.effects@.map_values(
                |e: (String, Vec<Effect>)| (e.0@, e.1@.map_values(|f: Effect| f@)),
            ),
        }
    }
}

/// The set of image names the asset loader resolves; every other `img`
/// statement fails as a load failure.
pub struct AssetCatalog {
    names: Vec<String>,
}

impl View for AssetCatalog {
    type V = Seq<Seq<char>>;

    closed spec fn view(&self) -> Seq<Seq<char>> {
        self.names@.map_values(|s: String| s@)
    }
}

impl AssetCatalog {
    pub fn new() -> (r: Self)
        ensures
            r@ == Seq::<Seq<char>>::empty(),
    {
        AssetCatalog { names: Vec::new() }
    }

    pub fn add(&mut self, name: String)
        ensures
            final(self)@ == old(self)@.push(name@),
    {
        let ghost oldv = self@;
        self.names.push(name);
        proof {
            assert(self@ =~= oldv.push(self.names@[self.names@.len() - 1]@));
        }
    }

    /// Does the catalog resolve `name`?
    pub fn resolves(&self, name: &String) -> (b: bool)
        ensures
            b == self@.contains(name@),
    {
        let n = self.names.len();
        let mut p: usize = 0;
        while p < n
            invariant
                p <= n == self.names@.len(),
                forall|q: int| 0 <= q < p ==> self@[q] != name@,
            decreases n - p,
        {
            if self.names[p] == *name {
                proof {
                    assert(self@[p as int] == name@);
                }
                return true;
            }
            p = p + 1;
        }
        false
    }
}

// ---------------------------------------------------------------------------
// Association lists
// ---------------------------------------------------------------------------
/// The first index holding key `k`, or minus one.
pub open spec fn find_key<T>(s: Seq<(Seq<char>, T)>, k: Seq<char>) -> int
    decreases s.len(),
{
    if s.len() == 0 {
        -1int
    } else if s[0].0 == k {
        0int
    } else {
        let r = find_key(s.drop_first(), k);
        if r < 0 {
            -1int
        } else {
            r + 1
        }
    }
}

/// Bind `k` to `v`: overwrite the first entry with key `k`, or append one.
pub open spec fn alist_set<T>(s: Seq<(Seq<char>, T)>, k: Seq<char>, v: T) -> Seq<(Seq<char>, T)> {
    let i = find_key(s, k);
    if i >= 0 {
        s.update(i, (k, v))
    } else {
        s.push((k, v))
    }
}

/// The value bound to `k`, if any.
pub open spec fn alist_get<T>(s: Seq<(Seq<char>, T)>, k: Seq<char>) -> Option<T> {
    let i = find_key(s, k);
    if i >= 0 {
        Some(s[i].1)
    } else {
        None
    }
}

/// `find_key` finds the first entry with the key, or reports that none
/// exists.
pub proof fn lemma_find_key_char<T>(s: Seq<(Seq<char>, T)>, k: Seq<char>)
    ensures
        find_key(s, k) == -1 ==> forall|q: int| 0 <= q < s.len() ==> s[q].0 != k,
        find_key(s, k) >= 0 ==> find_key(s, k) < s.len() && s[find_key(s, k)].0 == k && forall|
            q: int,
        | 0 <= q < find_key(s, k) ==> s[q].0 != k,
    decreases s.len(),
{
    if s.len() > 0 && !(s[0].0 == k) {
        lemma_find_key_char(s.drop_first(), k);
        let r = find_key(s.drop_first(), k);
        if r < 0 {
            assert forall|q: int| 0 <= q < s.len() implies s[q].0 != k by {
                if q > 0 {
                    assert(s.drop_first()[q - 1] == s[q]);
                }
            }
        } else {
            assert(s.drop_first()[r] == s[r + 1]);
            assert forall|q: int| 0 <= q < r + 1 implies s[q].0 != k by {
                if q > 0 {
                    assert(s.drop_first()[q - 1] == s[q]);
                }
            }
        }
    }
}

// ---------------------------------------------------------------------------
// Statement keywords
// ---------------------------------------------------------------------------
pub open spec fn kw_img() -> Seq<char> {
    seq!['i', 'm', 'g']
}

pub open spec fn kw_pos() -> Seq<char> {
    seq!['p', 'o', 's']
}

pub open spec fn kw_size() -> Seq<char> {
    seq!['s', 'i', 'z', 'e']
}

pub open spec fn kw_crop() -> Seq<char> {
    seq!['c', 'r', 'o', 'p']
}

pub open spec fn kw_blur() -> Seq<char> {
    seq!['b', 'l', 'u', 'r']
}

pub open spec fn kw_opacity() -> Seq<char> {
    seq!['o', 'p', 'a', 'c', 'i', 't', 'y']
}

pub open spec fn kw_brighten() -> Seq<char> {
    seq!['b', 'r', 'i', 'g', 'h', 't', 'e', 'n']
}

pub open spec fn kw_huerot() -> Seq<char> {
    seq!['h', 'u', 'e', 'r', 'o', 't']
}

pub open spec fn kw_contrast() -> Seq<char> {
    seq!['c', 'o', 'n', 't', 'r', 'a', 's', 't']
}

pub open spec fn kw_scatter() -> Seq<char> {
    seq!['s', 'c', 'a', 't', 't', 'e', 'r']
}

pub open spec fn kw_brownian() -> Seq<char> {
    seq!['b', 'r', 'o', 'w', 'n', 'i', 'a', 'n']
}

/// Is `w` a keyword that appends a one-argument effect?
pub open spec fn is_eff1_kw(w: Seq<char>) -> bool {
    w == kw_blur() || w == kw_opacity() || w == kw_brighten() || w == kw_huerot() || w
        == kw_contrast() || w == kw_scatter() || w == kw_brownian()
}

/// The one-argument effect a keyword names.
pub open spec fn eff1_of(w: Seq<char>, p: ParamV) -> EffV {
    if w == kw_blur() {
        EffV::Blur(p)
    } else if w == kw_opacity() {
        EffV::Opacity(p)
    } else if w == kw_brighten() {
        EffV::Brighten(p)
    } else if w == kw_huerot() {
        EffV::HueRot(p)
    } else if w == kw_contrast() {
        EffV::Contrast(p)
    } else if w == kw_scatter() {
        EffV::Scatter(p)
    } else {
        EffV::Brownian(p)
    }
}

// ---------------------------------------------------------------------------
// Generator construction from tokens
// ---------------------------------------------------------------------------
/// Is the token a parameter argument (anything but a bare word)?
pub open spec fn tok_is_param(t: TokV) -> bool {
    !(t is Word)
}

/// The ramp built from a generator argument list: three arguments are
/// `(min, max, steps)`; with two, `steps` defaults to six thousand; any
/// other count falls back to the full default `(0, 1, 6000)` (in units).
pub open spec fn ramp_of_args(args: Seq<int>) -> RampV {
    let a = if args.len() == 3 {
        (args[0], args[1], args[2])
    } else if args.len() == 2 {
        (args[0], args[1], 6_000_000_000int)
    } else {
        (0int, 1_000_000int, 6_000_000_000int)
    };
    RampV { min: a.0, inc: ramp_inc_spec(a.0, a.1, a.2), steps: a.2, count: 0 }
}

/// The bounce built from a generator argument list, defaulted as for ramps.
pub open spec fn bounce_of_args(args: Seq<int>) -> BounceV {
    let a = if args.len() == 3 {
        (args[0], args[1], args[2])
    } else if args.len() == 2 {
        (args[0], args[1], 6_000_000_000int)
    } else {
        (0int, 1_000_000int, 6_000_000_000int)
    };
    BounceV {
        min: a.0,
        range: sat64(a.1 - a.0),
        deg_inc: bounce_deg_inc_spec(a.2),
        steps: a.2,
        count: 0,
    }
}

/// The fresh generator a parameter token denotes.
pub open spec fn param_of_tok(t: TokV) -> ParamV {
    match t {
        TokV::Word(_) => ParamV::Static(0),
        TokV::Scalar(v) => ParamV::Static(v),
        TokV::Ramp(args) => ParamV::Ramp(ramp_of_args(args)),
        TokV::Bounce(args) => ParamV::Bounce(bounce_of_args(args)),
        TokV::Choose(args) => ParamV::Choose(args),
        TokV::Cycle(args) => ParamV::Cycle(CycleV { items: args, index: 0 }),
    }
}

// ---------------------------------------------------------------------------
// The interpretation model
// ---------------------------------------------------------------------------
/// The interpreter's running state: the registry built so far and the
/// current image name, if a successful `img` statement has set one.
pub ghost struct InterpV {
    pub reg: RegV,
    pub cur: Option<Seq<char>>,
}

pub open spec fn empty_reg() -> RegV {
    RegV {
        images: Seq::empty(),
        positions: Seq::empty(),
        sizes: Seq::empty(),
        effects: Seq::empty(),
    }
}

pub open spec fn init_interp() -> InterpV {
    InterpV { reg: empty_reg(), cur: None }
}

/// Collect up to `a` parameter arguments beginning at token `j`.  The first
/// component holds the parameters if all `a` were present and well-kinded;
/// the second is the index just past what the statement consumed (a
/// mismatched token is consumed too, as the interpreter reads eagerly).
pub open spec fn grab(toks: Seq<TokV>, j: int, a: int) -> (Option<Seq<ParamV>>, int)
    decreases a,
{
    if a <= 0 {
        (Some(Seq::<ParamV>::empty()), j)
    } else if j < 0 || j >= toks.len() {
        (None, toks.len() as int)
    } else if tok_is_param(toks[j]) {
        let r = grab(toks, j + 1, a - 1);
        match r.0 {
            Option::None => (None, r.1),
            Option::Some(ps) => (Some(seq![param_of_tok(toks[j])] + ps), r.1),
        }
    } else {
        (None, j + 1)
    }
}

/// Append an effect to the current image's chain, if it has one.
pub open spec fn append_eff(reg: RegV, name: Seq<char>, e: EffV) -> RegV {
    match alist_get(reg.effects, name) {
        Option::Some(list) => RegV { effects: alist_set(reg.effects, name, list.push(e)), ..reg },
        Option::None => reg,
    }
}

/// The state after a successful `img` statement for `name`: the image is
/// registered, its effect chain starts empty again, and it becomes current.
pub open spec fn img_success(st: InterpV, name: Seq<char>) -> InterpV {
    InterpV {
        reg: RegV {
            images: if st.reg.images.contains(name) {
                st.reg.images
            } else {
                st.reg.images.push(name)
            },
            effects: alist_set(st.reg.effects, name, Seq::<EffV>::empty()),
            ..st.reg
        },
        cur: Some(name),
    }
}

/// Interpret the tokens of one line from index `i` on.
pub open spec fn interp_toks_at(toks: Seq<TokV>, i: int, cat: Seq<Seq<char>>, st: InterpV) -> InterpV
    decreases toks.len() - i,
{
    if i < 0 || i >= toks.len() {
        st
    } else {
        match toks[i] {
            TokV::Word(w) => {
                if w == kw_img() {
                    if i + 1 < toks.len() {
                        match toks[i + 1] {
                            TokV::Word(name) => {
                                if cat.contains(name) {
                                    interp_toks_at(toks, i + 2, cat, img_success(st, name))
                                } else {
                                    // a failed load abandons the rest of the line and
                                    // clears the current image context
                                    InterpV { reg: st.reg, cur: None }
                                }
                            },
                            _ => interp_toks_at(toks, i + 2, cat, st),
                        }
                    } else {
                        st
                    }
                } else if w == kw_pos() || w == kw_size() {
                    let g = grab(toks, i + 1, 2);
                    let n2 = if g.1 < i + 1 {
                        i + 1
                    } else if g.1 > toks.len() {
                        toks.len() as int
                    } else {
                        g.1
                    };
                    let st2 = if g.0 is Some && st.cur is Some {
                        let ps = g.0->0;
                        let name = st.cur->0;
                        if w == kw_pos() {
                            InterpV {
                                reg: RegV {
                                    positions: alist_set(st.reg.positions, name, (ps[0], ps[1])),
                                    ..st.reg
                                },
                                ..st
                            }
                        } else {
                            InterpV {
                                reg: RegV {
                                    sizes: alist_set(st.reg.sizes, name, (ps[0], ps[1])),
                                    ..st.reg
                                },
                                ..st
                            }
                        }
                    } else {
                        st
                    };
                    interp_toks_at(toks, n2, cat, st2)
                } else if w == kw_crop() {
                    let g = grab(toks, i + 1, 4);
                    let n2 = if g.1 < i + 1 {
                        i + 1
                    } else if g.1 > toks.len() {
                        toks.len() as int
                    } else {
                        g.1
                    };
                    let st2 = if g.0 is Some && st.cur is Some {
                        let ps = g.0->0;
                        InterpV {
                            reg: append_eff(
                                st.reg,
                                st.cur->0,
                                EffV::Crop(ps[0], ps[1], ps[2], ps[3]),
                            ),
                            ..st
                        }
                    } else {
                        st
                    };
                    interp_toks_at(toks, n2, cat, st2)
                } else if is_eff1_kw(w) {
                    let g = grab(toks, i + 1, 1);
                    let n2 = if g.1 < i + 1 {
                        i + 1
                    } else if g.1 > toks.len() {
                        toks.len() as int
                    } else {
                        g.1
                    };
                    let st2 = if g.0 is Some && st.cur is Some {
                        InterpV { reg: append_eff(st.reg, st.cur->0, eff1_of(w, g.0->0[0])), ..st }
                    } else {
                        st
                    };
                    interp_toks_at(toks, n2, cat, st2)
                } else {
                    interp_toks_at(toks, i + 1, cat, st)
                }
            },
            _ => interp_toks_at(toks, i + 1, cat, st),
        }
    }
}

/// First index at or after `i` that does not hold a space.
pub open spec fn scan_spaces(s: Seq<char>, i: int) -> int
    decreases s.len() - i,
{
    if i < 0 || i >= s.len() || s[i] != ' ' {
        i
    } else {
        scan_spaces(s, i + 1)
    }
}

/// A comment line: its first non-space character is `#`.
pub open spec fn is_comment_line(line: Seq<char>) -> bool {
    let i = scan_spaces(line, 0);
    0 <= i < line.len() && line[i] == '#'
}

/// One line's contribution: a comment is skipped, a line that fails to
/// parse is dropped, and any other line has its tokens interpreted.
pub open spec fn line_step(st: InterpV, line: Seq<char>, cat: Seq<Seq<char>>) -> InterpV {
    if is_comment_line(line) {
        st
    } else {
        match parse_line_v(line) {
            Option::None => st,
            Option::Some(toks) => interp_toks_at(toks, 0, cat, st),
        }
    }
}

/// Interpret the newline-separated lines of `text` from position `i` on.
pub open spec fn interp_lines_from(
    text: Seq<char>,
    i: int,
    cat: Seq<Seq<char>>,
    st: InterpV,
) -> InterpV
    decreases text.len() - i,
{
    if i < 0 || i > text.len() {
        st
    } else {
        let j = scan_until(text, i, '\n');
        if !(i <= j <= text.len()) {
            st
        } else {
            let st2 = line_step(st, text.subrange(i, j), cat);
            if j >= text.len() {
                st2
            } else {
                interp_lines_from(text, j + 1, cat, st2)
            }
        }
    }
}

/// The registry a whole program text builds against a catalog, starting
/// from the empty state.
pub open spec fn interp_program(text: Seq<char>, cat: Seq<Seq<char>>) -> RegV {
    interp_lines_from(text, 0, cat, init_interp()).reg
}

// ---------------------------------------------------------------------------
// Well-formedness of a built registry
// ---------------------------------------------------------------------------
pub open spec fn pair_wf(pp: (ParamV, ParamV)) -> bool {
    param_wf(pp.0) && param_wf(pp.1)
}

pub open spec fn effs_wf(l: Seq<EffV>) -> bool {
    forall|e: int| 0 <= e < l.len() ==> eff_wf(#[trigger] l[e])
}

/// Every generator stored in the registry satisfies its own invariant, so
/// sampling any of them is permitted.
pub open spec fn reg_params_wf(reg: RegV) -> bool {
    (forall|q: int| 0 <= q < reg.positions.len() ==> pair_wf(#[trigger] reg.positions[q].1)) && (
    forall|q: int| 0 <= q < reg.sizes.len() ==> pair_wf(#[trigger] reg.sizes[q].1)) && (forall|
        q: int,
    | 0 <= q < reg.effects.len() ==> effs_wf(#[trigger] reg.effects[q].1))
}

pub open spec fn eff_wf(e: EffV) -> bool {
    match e {
        EffV::Crop(a, b, c, d) => param_wf(a) && param_wf(b) && param_wf(c) && param_wf(d),
        EffV::Blur(a) => param_wf(a),
        EffV::Opacity(a) => param_wf(a),
        EffV::Brighten(a) => param_wf(a),
        EffV::HueRot(a) => param_wf(a),
        EffV::Contrast(a) => param_wf(a),
        EffV::Scatter(a) => param_wf(a),
        EffV::Brownian(a) => param_wf(a),
    }
}

/// Every name bound in `positions`, `sizes` or `effects` is a registered
/// image: bindings never outlive a failed or missing image.
pub open spec fn reg_names_resolved(reg: RegV) -> bool {
    (forall|q: int| 0 <= q < reg.positions.len() ==> reg.images.contains(#[trigger] reg.positions[q].0))
        && (forall|q: int| 0 <= q < reg.sizes.len() ==> reg.images.contains(#[trigger] reg.sizes[q].0))
        && (forall|q: int| 0 <= q < reg.effects.len() ==> reg.images.contains(#[trigger] reg.effects[q].0))
}

// ---------------------------------------------------------------------------
// Executable registry operations
// ---------------------------------------------------------------------------
pub open spec fn names_view(s: Seq<String>) -> Seq<Seq<char>> {
    s.map_values(|x: String| x@)
}

pub open spec fn pair_view(s: Seq<(String, Parameter, Parameter)>) -> Seq<
    (Seq<char>, (ParamV, ParamV)),
> {
    s.map_values(|e: (String, Parameter, Parameter)| (e.0@, (e.1@, e.2@)))
}

pub open spec fn effs_view(s: Seq<(String, Vec<Effect>)>) -> Seq<(Seq<char>, Seq<EffV>)> {
    s.map_values(|e: (String, Vec<Effect>)| (e.0@, e.1@.map_values(|f: Effect| f@)))
}

fn find_pair_idx(v: &Vec<(String, Parameter, Parameter)>, name: &String) -> (r: Option<usize>)
    ensures
        match r {
            Option::Some(i) => i < v@.len() && find_key(pair_view(v@), name@) == i as int,
            Option::None => find_key(pair_view(v@), name@) == -1,
        },
{
    proof {
        lemma_find_key_char(pair_view(v@), name@);
    }
    let n = v.len();
    let mut p: usize = 0;
    while p < n
        invariant
            p <= n == v@.len(),
            forall|q: int| 0 <= q < p ==> pair_view(v@)[q].0 != name@,
        decreases n - p,
    {
        if v[p].0 == *name {
            proof {
                assert(pair_view(v@)[p as int].0 == name@);
                lemma_find_key_char(pair_view(v@), name@);
                let fk = find_key(pair_view(v@), name@);
                if fk == -1 {
                    assert(pair_view(v@)[p as int].0 != name@);
                } else if fk < p as int {
                    assert(pair_view(v@)[fk].0 != name@);
                } else if fk > p as int {
                    assert(pair_view(v@)[p as int].0 != name@);
                }
            }
            return Some(p);
        }
        p = p + 1;
    }
    proof {
        lemma_find_key_char(pair_view(v@), name@);
        let fk = find_key(pair_view(v@), name@);
        if fk >= 0 {
            assert(pair_view(v@)[fk].0 != name@);
        }
    }
    None
}

fn find_eff_idx(v: &Vec<(String, Vec<Effect>)>, name: &String) -> (r: Option<usize>)
    ensures
        match r {
            Option::Some(i) => i < v@.len() && find_key(effs_view(v@), name@) == i as int,
            Option::None => find_key(effs_view(v@), name@) == -1,
        },
{
    proof {
        lemma_find_key_char(effs_view(v@), name@);
    }
    let n = v.len();
    let mut p: usize = 0;
    while p < n
        invariant
            p <= n == v@.len(),
            forall|q: int| 0 <= q < p ==> effs_view(v@)[q].0 != name@,
        decreases n - p,
    {
        if v[p].0 == *name {
            proof {
                assert(effs_view(v@)[p as int].0 == name@);
                lemma_find_key_char(effs_view(v@), name@);
                let fk = find_key(effs_view(v@), name@);
                if fk == -1 {
                    assert(effs_view(v@)[p as int].0 != name@);
                } else if fk < p as int {
                    assert(effs_view(v@)[fk].0 != name@);
                } else if fk > p as int {
                    assert(effs_view(v@)[p as int].0 != name@);
                }
            }
            return Some(p);
        }
        p = p + 1;
    }
    proof {
        lemma_find_key_char(effs_view(v@), name@);
        let fk = find_key(effs_view(v@), name@);
        if fk >= 0 {
            assert(effs_view(v@)[fk].0 != name@);
        }
    }
    None
}

fn set_pair(v: &mut Vec<(String, Parameter, Parameter)>, name: &String, a: Parameter, b: Parameter)
    ensures
        pair_view(final(v)@) == alist_set(pair_view(old(v)@), name@, (a@, b@)),
{
    let entry = (name.clone(), a, b);
    match find_pair_idx(v, name) {
        Option::Some(i) => {
            let _ = v.remove(i);
            v.insert(i, entry);
            proof {
                assert(pair_view(v@) =~~= alist_set(pair_view(old(v)@), name@, (entry.1@, entry.2@)));
            }
        },
        Option::None => {
            v.push(entry);
            proof {
                assert(pair_view(v@) =~~= alist_set(pair_view(old(v)@), name@, (entry.1@, entry.2@)));
            }
        },
    }
}

fn reset_effects(v: &mut Vec<(String, Vec<Effect>)>, name: &String)
    ensures
        effs_view(final(v)@) == alist_set(effs_view(old(v)@), name@, Seq::<EffV>::empty()),
{
    let entry = (name.clone(), Vec::<Effect>::new());
    match find_eff_idx(v, name) {
        Option::Some(i) => {
            let _ = v.remove(i);
            v.insert(i, entry);
            proof {
                assert(effs_view(v@) =~~= alist_set(effs_view(old(v)@), name@, Seq::<EffV>::empty()));
            }
        },
        Option::None => {
            v.push(entry);
            proof {
                assert(effs_view(v@) =~~= alist_set(effs_view(old(v)@), name@, Seq::<EffV>::empty()));
            }
        },
    }
}

fn append_effect(v: &mut Vec<(String, Vec<Effect>)>, name: &String, e: Effect)
    ensures
        ({
            let reg0 = effs_view(old(v)@);
            effs_view(final(v)@) == match alist_get(reg0, name@) {
                Option::Some(list) => alist_set(reg0, name@, list.push(e@)),
                Option::None => reg0,
            }
        }),
{
    let ghost ev = e@;
    match find_eff_idx(v, name) {
        Option::Some(i) => {
            let mut entry = v.remove(i);
            let ghost oldlist = entry.1@.map_values(|f: Effect| f@);
            entry.1.push(e);
            proof {
                assert(entry.1@.map_values(|f: Effect| f@) =~= oldlist.push(ev));
            }
            let ghost entv = entry;
            v.insert(i, entry);
            proof {
                assert(v@.len() == old(v)@.len());
                assert forall|q: int| 0 <= q < v@.len() implies v@[q] == old(v)@.update(
                    i as int,
                    entv,
                )[q] by {
                    if q < i as int {
                    } else if q == i as int {
                    } else {
                    }
                }
                assert(v@ =~= old(v)@.update(i as int, entv));
                lemma_find_key_char(effs_view(old(v)@), name@);
                assert(effs_view(old(v)@)[i as int].0 == name@);
                assert(entv.0@ == name@);
                assert forall|q: int| 0 <= q < effs_view(v@).len() implies effs_view(v@)[q]
                    == alist_set(effs_view(old(v)@), name@, oldlist.push(ev))[q] by {
                    if q == i as int {
                        assert(effs_view(v@)[q] == (entv.0@, entv.1@.map_values(|f: Effect| f@)));
                    }
                }
                assert(effs_view(v@) =~~= alist_set(effs_view(old(v)@), name@, oldlist.push(ev)));
            }
        },
        Option::None => {
        },
    }
}

fn add_image(v: &mut Vec<String>, name: &String)
    ensures
        names_view(final(v)@) == (if names_view(old(v)@).contains(name@) {
            names_view(old(v)@)
        } else {
            names_view(old(v)@).push(name@)
        }),
{
    let n = v.len();
    let mut p: usize = 0;
    while p < n
        invariant
            p <= n == v@.len(),
            forall|q: int| 0 <= q < p ==> names_view(v@)[q] != name@,
        decreases n - p,
    {
        if v[p] == *name {
            proof {
                assert(names_view(v@)[p as int] == name@);
            }
            return ;
        }
        p = p + 1;
    }
    proof {
        assert(!names_view(v@).contains(name@));
    }
    v.push(name.clone());
    proof {
        assert(names_view(v@) =~= names_view(old(v)@).push(name@));
    }
}

// ---------------------------------------------------------------------------
// Generator construction
// ---------------------------------------------------------------------------
/// Build the fresh generator a parameter token denotes; a bare word is no
/// parameter.
fn param_of(t: &ParserResult) -> (r: Option<Parameter>)
    ensures
        match r {
            Option::Some(p) => tok_is_param(t@) && p@ == param_of_tok(t@) && param_wf(p@),
            Option::None => !tok_is_param(t@),
        },
{
    match t {
        ParserResult::String(_) => None,
        ParserResult::Scalar(v) => Some(Parameter::Static(StaticParameter::from_val(*v))),
        ParserResult::Ramp(args) => {
            let p = if args.len() == 3 {
                RampParameter::from_params(args[0], args[1], args[2])
            } else if args.len() == 2 {
                RampParameter::from_params(args[0], args[1], 6_000_000_000)
            } else {
                RampParameter::from_params(0, 1_000_000, 6_000_000_000)
            };
            Some(Parameter::Ramp(p))
        },
        ParserResult::Bounce(args) => {
            let p = if args.len() == 3 {
                BounceParameter::from_params(args[0], args[1], args[2])
            } else if args.len() == 2 {
                BounceParameter::from_params(args[0], args[1], 6_000_000_000)
            } else {
                BounceParameter::from_params(0, 1_000_000, 6_000_000_000)
            };
            Some(Parameter::Bounce(p))
        },
        ParserResult::Choose(args) => Some(Parameter::Choose(ChooseParameter::from_seq(args))),
        ParserResult::Cycle(args) => Some(Parameter::Cycle(CycleParameter::from_seq(args))),
    }
}

// ---------------------------------------------------------------------------
// The registry invariant
// ---------------------------------------------------------------------------
/// The interpreter's running invariant: the registry is well-formed and the
/// current image, if any, is registered.
pub open spec fn interp_inv(st: InterpV) -> bool {
    reg_params_wf(st.reg) && reg_names_resolved(st.reg) && (match st.cur {
        Option::Some(n) => st.reg.images.contains(n),
        Option::None => true,
    })
}

/// Every entry of `alist_set(s, k, v)` is either the new binding or an entry
/// of `s` at the same place.
proof fn lemma_alist_set_entry<T>(s: Seq<(Seq<char>, T)>, k: Seq<char>, v: T, q: int)
    requires
        0 <= q < alist_set(s, k, v).len(),
    ensures
        alist_set(s, k, v)[q] == (k, v) || (0 <= q < s.len() && alist_set(s, k, v)[q] == s[q]),
{
    lemma_find_key_char(s, k);
}

proof fn lemma_contains_push(s: Seq<Seq<char>>, x: Seq<char>, y: Seq<char>)
    requires
        s.contains(x),
    ensures
        s.push(y).contains(x),
{
    let i = choose|i: int| 0 <= i < s.len() && s[i] == x;
    assert(s.push(y)[i] == x);
}

/// A freshly built generator always satisfies its own invariant.
pub proof fn lemma_param_of_tok_wf(t: TokV)
    ensures
        param_wf(param_of_tok(t)),
{
    match t {
        TokV::Bounce(args) => {
            let b = bounce_of_args(args);
            if b.steps > 0 {
                vstd::arithmetic::div_mod::lemma_div_pos_is_pos(
                    360_000_000_000_000,
                    crate::fixed::abs_int(b.steps),
                );
            }
        },
        _ => {},
    }
}

proof fn lemma_grab_wf(toks: Seq<TokV>, j: int, a: int)
    requires
        a >= 0,
    ensures
        (match grab(toks, j, a).0 {
            Option::Some(ps) => ps.len() == a && forall|q: int|
                0 <= q < ps.len() ==> param_wf(#[trigger] ps[q]),
            Option::None => true,
        }),
    decreases a,
{
    if a > 0 && 0 <= j < toks.len() && tok_is_param(toks[j]) {
        lemma_grab_wf(toks, j + 1, a - 1);
        lemma_param_of_tok_wf(toks[j]);
    }
}

proof fn lemma_img_success_inv(st: InterpV, name: Seq<char>)
    requires
        interp_inv(st),
    ensures
        interp_inv(img_success(st, name)),
{
    let st2 = img_success(st, name);
    let im2 = st2.reg.images;
    assert(im2.contains(name)) by {
        if st.reg.images.contains(name) {
        } else {
            assert(im2[im2.len() - 1] == name);
        }
    }
    assert forall|q: int| 0 <= q < st2.reg.positions.len() implies im2.contains(
        #[trigger] st2.reg.positions[q].0,
    ) by {
        if !st.reg.images.contains(name) {
            lemma_contains_push(st.reg.images, st.reg.positions[q].0, name);
        }
    }
    assert forall|q: int| 0 <= q < st2.reg.sizes.len() implies im2.contains(
        #[trigger] st2.reg.sizes[q].0,
    ) by {
        if !st.reg.images.contains(name) {
            lemma_contains_push(st.reg.images, st.reg.sizes[q].0, name);
        }
    }
    assert forall|q: int| 0 <= q < st2.reg.effects.len() implies im2.contains(
        #[trigger] st2.reg.effects[q].0,
    ) by {
        lemma_alist_set_entry(st.reg.effects, name, Seq::<EffV>::empty(), q);
        if st2.reg.effects[q] == (name, Seq::<EffV>::empty()) {
        } else {
            if !st.reg.images.contains(name) {
                lemma_contains_push(st.reg.images, st.reg.effects[q].0, name);
            }
        }
    }
    assert forall|q: int| 0 <= q < st2.reg.effects.len() implies effs_wf(
        #[trigger] st2.reg.effects[q].1,
    ) by {
        lemma_alist_set_entry(st.reg.effects, name, Seq::<EffV>::empty(), q);
    }
}

proof fn lemma_set_pair_inv(
    s: Seq<(Seq<char>, (ParamV, ParamV))>,
    k: Seq<char>,
    v: (ParamV, ParamV),
    images: Seq<Seq<char>>,
)
    requires
        forall|q: int| 0 <= q < s.len() ==> pair_wf(#[trigger] s[q].1),
        forall|q: int| 0 <= q < s.len() ==> images.contains(#[trigger] s[q].0),
        pair_wf(v),
        images.contains(k),
    ensures
        forall|q: int| 0 <= q < alist_set(s, k, v).len() ==> pair_wf(#[trigger] alist_set(s, k, v)[q].1),
        forall|q: int|
            0 <= q < alist_set(s, k, v).len() ==> images.contains(#[trigger] alist_set(s, k, v)[q].0),
{
    assert forall|q: int| 0 <= q < alist_set(s, k, v).len() implies pair_wf(
        #[trigger] alist_set(s, k, v)[q].1,
    ) by {
        lemma_alist_set_entry(s, k, v, q);
    }
    assert forall|q: int| 0 <= q < alist_set(s, k, v).len() implies images.contains(
        #[trigger] alist_set(s, k, v)[q].0,
    ) by {
        lemma_alist_set_entry(s, k, v, q);
    }
}

proof fn lemma_append_eff_inv(reg: RegV, name: Seq<char>, e: EffV)
    requires
        reg_params_wf(reg),
        reg_names_resolved(reg),
        eff_wf(e),
    ensures
        reg_params_wf(append_eff(reg, name, e)),
        reg_names_resolved(append_eff(reg, name, e)),
        append_eff(reg, name, e).images == reg.images,
{
    let r2 = append_eff(reg, name, e);
    match alist_get(reg.effects, name) {
        Option::Some(list) => {
            lemma_find_key_char(reg.effects, name);
            let i = find_key(reg.effects, name);
            assert(effs_wf(list));
            assert(effs_wf(list.push(e)));
            assert(reg.images.contains(name)) by {
                assert(reg.effects[i].0 == name);
            }
            assert forall|q: int| 0 <= q < r2.effects.len() implies effs_wf(
                #[trigger] r2.effects[q].1,
            ) by {
                lemma_alist_set_entry(reg.effects, name, list.push(e), q);
            }
            assert forall|q: int| 0 <= q < r2.effects.len() implies reg.images.contains(
                #[trigger] r2.effects[q].0,
            ) by {
                lemma_alist_set_entry(reg.effects, name, list.push(e), q);
            }
        },
        Option::None => {},
    }
}

proof fn lemma_interp_toks_inv(toks: Seq<TokV>, i: int, cat: Seq<Seq<char>>, st: InterpV)
    requires
        interp_inv(st),
    ensures
        interp_inv(interp_toks_at(toks, i, cat, st)),
    decreases toks.len() - i,
{
    if 0 <= i < toks.len() {
        match toks[i] {
            TokV::Word(w) => {
                if w == kw_img() {
                    if i + 1 < toks.len() {
                        match toks[i + 1] {
                            TokV::Word(name) => {
                                if cat.contains(name) {
                                    lemma_img_success_inv(st, name);
                                    lemma_interp_toks_inv(toks, i + 2, cat, img_success(st, name));
                                }
                            },
                            _ => {
                                lemma_interp_toks_inv(toks, i + 2, cat, st);
                            },
                        }
                    }
                } else if w == kw_pos() || w == kw_size() {
                    let g = grab(toks, i + 1, 2);
                    let n2 = if g.1 < i + 1 {
                        i + 1
                    } else if g.1 > toks.len() {
                        toks.len() as int
                    } else {
                        g.1
                    };
                    lemma_grab_wf(toks, i + 1, 2);
                    if g.0 is Some && st.cur is Some {
                        let ps = g.0->0;
                        let name = st.cur->0;
                        if w == kw_pos() {
                            lemma_set_pair_inv(st.reg.positions, name, (ps[0], ps[1]), st.reg.images);
                        } else {
                            lemma_set_pair_inv(st.reg.sizes, name, (ps[0], ps[1]), st.reg.images);
                        }
                    }
                    let st2 = if g.0 is Some && st.cur is Some {
                        if w == kw_pos() {
                            InterpV {
                                reg: RegV {
                                    positions: alist_set(
                                        st.reg.positions,
                                        st.cur->0,
                                        (g.0->0[0], g.0->0[1]),
                                    ),
                                    ..st.reg
                                },
                                ..st
                            }
                        } else {
                            InterpV {
                                reg: RegV {
                                    sizes: alist_set(
                                        st.reg.sizes,
                                        st.cur->0,
                                        (g.0->0[0], g.0->0[1]),
                                    ),
                                    ..st.reg
                                },
                                ..st
                            }
                        }
                    } else {
                        st
                    };
                    lemma_interp_toks_inv(toks, n2, cat, st2);
                } else if w == kw_crop() {
                    let g = grab(toks, i + 1, 4);
                    let n2 = if g.1 < i + 1 {
                        i + 1
                    } else if g.1 > toks.len() {
                        toks.len() as int
                    } else {
                        g.1
                    };
                    lemma_grab_wf(toks, i + 1, 4);
                    let st2 = if g.0 is Some && st.cur is Some {
                        let ps = g.0->0;
                        lemma_append_eff_inv(st.reg, st.cur->0, EffV::Crop(ps[0], ps[1], ps[2], ps[3]));
                        InterpV {
                            reg: append_eff(st.reg, st.cur->0, EffV::Crop(ps[0], ps[1], ps[2], ps[3])),
                            ..st
                        }
                    } else {
                        st
                    };
                    lemma_interp_toks_inv(toks, n2, cat, st2);
                } else if is_eff1_kw(w) {
                    let g = grab(toks, i + 1, 1);
                    let n2 = if g.1 < i + 1 {
                        i + 1
                    } else if g.1 > toks.len() {
                        toks.len() as int
                    } else {
                        g.1
                    };
                    lemma_grab_wf(toks, i + 1, 1);
                    let st2 = if g.0 is Some && st.cur is Some {
                        lemma_append_eff_inv(st.reg, st.cur->0, eff1_of(w, g.0->0[0]));
                        InterpV { reg: append_eff(st.reg, st.cur->0, eff1_of(w, g.0->0[0])), ..st }
                    } else {
                        st
                    };
                    lemma_interp_toks_inv(toks, n2, cat, st2);
                } else {
                    lemma_interp_toks_inv(toks, i + 1, cat, st);
                }
            },
            _ => {
                lemma_interp_toks_inv(toks, i + 1, cat, st);
            },
        }
    }
}

proof fn lemma_interp_lines_inv(text: Seq<char>, i: int, cat: Seq<Seq<char>>, st: InterpV)
    requires
        interp_inv(st),
    ensures
        interp_inv(interp_lines_from(text, i, cat, st)),
    decreases text.len() - i,
{
    if 0 <= i <= text.len() {
        let j = scan_until(text, i, '\n');
        if i <= j <= text.len() {
            let line = text.subrange(i, j);
            let st2 = line_step(st, line, cat);
            assert(interp_inv(st2)) by {
                if !is_comment_line(line) {
                    match parse_line_v(line) {
                        Option::Some(toks) => {
                            lemma_interp_toks_inv(toks, 0, cat, st);
                        },
                        Option::None => {},
                    }
                }
            }
            if j < text.len() {
                lemma_interp_lines_inv(text, j + 1, cat, st2);
            }
        }
    }
}

/// The registry built from any program text is internally sound: every name
/// bound in `positions`, `sizes` or `effects` is a registered image, and
/// every stored generator satisfies its own invariant, so each may be
/// sampled.
pub proof fn lemma_interp_program_sound(text: Seq<char>, cat: Seq<Seq<char>>)
    ensures
        reg_params_wf(interp_program(text, cat)),
        reg_names_resolved(interp_program(text, cat)),
{
    lemma_interp_lines_inv(text, 0, cat, init_interp());
}

// ---------------------------------------------------------------------------
// Laws of interpretation
// ---------------------------------------------------------------------------
/// A comment line never fails and never affects the registry: a line whose
/// first non-space character is `#` is passed over with the state unchanged.
pub proof fn lemma_comment_line_no_effect(st: InterpV, line: Seq<char>, cat: Seq<Seq<char>>)
    requires
        is_comment_line(line),
    ensures
        line_step(st, line, cat) == st,
{
}

/// Reinterpreting identical program text against the same catalog twice
/// yields registries with identical bindings: which images, positions,
/// sizes and effects exist, and in what order, depends on the text and the
/// catalog alone (generator progression state is rebuilt fresh each pass).
pub proof fn lemma_reinterpret_stable(r1: RegV, r2: RegV, text: Seq<char>, cat: Seq<Seq<char>>)
    requires
        r1 == interp_program(text, cat),
        r2 == interp_program(text, cat),
    ensures
        r1 == r2,
{
}

// ---------------------------------------------------------------------------
// The interpreter
// ---------------------------------------------------------------------------
pub open spec fn cur_view(c: Option<String>) -> Option<Seq<char>> {
    match c {
        Option::Some(s) => Some(s@),
        Option::None => None,
    }
}

/// First index at or after `from` that holds `c`.
fn scan_str_until(text: &str, from: usize, c: char) -> (r: usize)
    requires
        from <= text@.len(),
    ensures
        r as int == scan_until(text@, from as int, c),
        from <= r <= text@.len(),
{
    let n = text.unicode_len();
    let mut p = from;
    while p < n && text.get_char(p) != c
        invariant
            from <= p <= n == text@.len(),
            scan_until(text@, from as int, c) == scan_until(text@, p as int, c),
            p < n ==> scan_until(text@, p as int, c) == if text@[p as int] == c {
                p as int
            } else {
                scan_until(text@, p as int + 1, c)
            },
        decreases n - p,
    {
        p = p + 1;
    }
    p
}

/// First index at or after `from` that does not hold a space.
fn scan_str_spaces(text: &str, from: usize) -> (r: usize)
    requires
        from <= text@.len(),
    ensures
        r as int == scan_spaces(text@, from as int),
        from <= r <= text@.len(),
{
    let n = text.unicode_len();
    let mut p = from;
    while p < n && text.get_char(p) == ' '
        invariant
            from <= p <= n == text@.len(),
            scan_spaces(text@, from as int) == scan_spaces(text@, p as int),
            p < n ==> scan_spaces(text@, p as int) == if text@[p as int] != ' ' {
                p as int
            } else {
                scan_spaces(text@, p as int + 1)
            },
        decreases n - p,
    {
        p = p + 1;
    }
    p
}

/// Collect up to `a` parameter arguments beginning at token `j`, as `grab`
/// describes.
fn grab_x(toks: &Vec<ParserResult>, j: usize, a: usize) -> (r: (Option<Vec<Parameter>>, usize))
    requires
        j <= toks@.len(),
    ensures
        ({
            let g = grab(crate::line_parser::toks_view(toks@), j as int, a as int);
            &&& r.1 as int == g.1
            &&& j <= r.1 <= toks@.len()
            &&& match r.0 {
                Option::Some(ps) => g.0 == Some(ps@.map_values(|p: Parameter| p@)) && ps@.len()
                    == a && (forall|q: int| 0 <= q < ps@.len() ==> param_wf(#[trigger] ps@[q]@)),
                Option::None => g.0 is None,
            }
        }),
{
    let ghost tv = crate::line_parser::toks_view(toks@);
    let tlen = toks.len();
    let mut ps: Vec<Parameter> = Vec::new();
    let mut k: usize = 0;
    loop
        invariant
            k <= a,
            tlen == toks@.len(),
            j + k <= tlen,
            tv == crate::line_parser::toks_view(toks@),
            tv.len() == toks@.len(),
            ps@.len() == k,
            forall|q: int| 0 <= q < ps@.len() ==> param_wf(#[trigger] ps@[q]@),
            grab(tv, j as int, a as int) == (match grab(tv, (j + k) as int, (a - k) as int) {
                (Option::None, n2) => (None::<Seq<ParamV>>, n2),
                (Option::Some(rest), n2) => (
                    Some(ps@.map_values(|p: Parameter| p@) + rest),
                    n2,
                ),
            }),
        decreases a - k,
    {
        if k == a {
            proof {
                assert(ps@.map_values(|p: Parameter| p@) + Seq::<ParamV>::empty() =~= ps@.map_values(
                    |p: Parameter| p@,
                ));
            }
            return (Some(ps), j + k);
        }
        if j + k >= tlen {
            return (None, tlen);
        }
        match param_of(&toks[j + k]) {
            Option::None => {
                return (None, j + k + 1);
            },
            Option::Some(p) => {
                let ghost oldps = ps@;
                ps.push(p);
                proof {
                    assert(ps@.map_values(|x: Parameter| x@) =~= oldps.map_values(
                        |x: Parameter| x@,
                    ).push(ps@[ps@.len() - 1]@));
                    let g2 = grab(tv, (j + k) as int + 1, (a - k) as int - 1);
                    match g2.0 {
                        Option::Some(rest) => {
                            assert(oldps.map_values(|x: Parameter| x@) + (seq![ps@[ps@.len() - 1]@]
                                + rest) =~= ps@.map_values(|x: Parameter| x@) + rest);
                        },
                        Option::None => {
                        },
                    }
                }
                k = k + 1;
            },
        }
    }
}

/// Interpret a whole program text against an asset catalog, from the empty
/// registry: the result is exactly the registry the interpretation model
/// builds, every stored generator is well-formed, and every bound name is a
/// registered image.
pub fn interpret(text: &str, catalog: &AssetCatalog) -> (r: SceneRegistry)
    ensures
        r@ == interp_program(text@, catalog@),
        reg_params_wf(r@),
        reg_names_resolved(r@),
{
    proof {
        lemma_interp_program_sound(text@, catalog@);
    }
    let n = text.unicode_len();
    let mut reg = SceneRegistry {
        images: Vec::new(),
        positions: Vec::new(),
        sizes: Vec::new(),
        effects: Vec::new(),
    };
    let mut cur: Option<String> = None;
    proof {
        assert(reg@.images =~= empty_reg().images);
        assert(reg@.positions =~= empty_reg().positions);
        assert(reg@.sizes =~= empty_reg().sizes);
        assert(reg@.effects =~= empty_reg().effects);
    }
    let mut pos: usize = 0;
    let mut done = false;
    while !done
        invariant
            n == text@.len(),
            pos <= n,
            !done ==> interp_lines_from(text@, 0, catalog@, init_interp()) == interp_lines_from(
                text@,
                pos as int,
                catalog@,
                (InterpV { reg: reg@, cur: cur_view(cur) }),
            ),
            done ==> interp_lines_from(text@, 0, catalog@, init_interp()).reg == reg@,
        decreases n - pos, (if done {
            0int
        } else {
            1int
        }),
    {
        let ghost st_line = InterpV { reg: reg@, cur: cur_view(cur) };
        let j = scan_str_until(text, pos, '\n');
        let line = text.substring_char(pos, j);
        let ghost linev = text@.subrange(pos as int, j as int);
        let ln = line.unicode_len();
        let cstart = scan_str_spaces(line, 0);
        let comment = cstart < ln && line.get_char(cstart) == '#';
        proof {
            assert(comment == is_comment_line(linev));
        }
        if !comment {
            match parse_line(line) {
                Result::Err(_) => {
                },
                Result::Ok(toks) => {
                    interp_tokens(&toks, catalog, &mut reg, &mut cur);
                },
            }
        }
        proof {
            assert(InterpV { reg: reg@, cur: cur_view(cur) } == line_step(
                st_line,
                linev,
                catalog@,
            ));
        }
        if j >= n {
            done = true;
        } else {
            pos = j + 1;
        }
    }
    reg
}

/// Interpret one line's tokens, updating the registry and the current
/// image, as `interp_toks_at` describes from index zero.
fn interp_tokens(
    toks: &Vec<ParserResult>,
    catalog: &AssetCatalog,
    reg: &mut SceneRegistry,
    cur: &mut Option<String>,
)
    ensures
        (InterpV { reg: final(reg)@, cur: cur_view(*final(cur)) }) == interp_toks_at(
            crate::line_parser::toks_view(toks@),
            0,
            catalog@,
            (InterpV { reg: old(reg)@, cur: cur_view(*old(cur)) }),
        ),
{
    let ghost tv = crate::line_parser::toks_view(toks@);
    let ghost st0 = InterpV { reg: old(reg)@, cur: cur_view(*old(cur)) };
    let kw_img_s = String::from_str("img");
    let kw_pos_s = String::from_str("pos");
    let kw_size_s = String::from_str("size");
    let kw_crop_s = String::from_str("crop");
    let kw_blur_s = String::from_str("blur");
    let kw_opacity_s = String::from_str("opacity");
    let kw_brighten_s = String::from_str("brighten");
    let kw_huerot_s = String::from_str("huerot");
    let kw_contrast_s = String::from_str("contrast");
    let kw_scatter_s = String::from_str("scatter");
    let kw_brownian_s = String::from_str("brownian");
    proof {
        reveal_strlit("img");
        reveal_strlit("pos");
        reveal_strlit("size");
        reveal_strlit("crop");
        reveal_strlit("blur");
        reveal_strlit("opacity");
        reveal_strlit("brighten");
        reveal_strlit("huerot");
        reveal_strlit("contrast");
        reveal_strlit("scatter");
        reveal_strlit("brownian");
        assert(kw_img_s@ =~= kw_img());
        assert(kw_pos_s@ =~= kw_pos());
        assert(kw_size_s@ =~= kw_size());
        assert(kw_crop_s@ =~= kw_crop());
        assert(kw_blur_s@ =~= kw_blur());
        assert(kw_opacity_s@ =~= kw_opacity());
        assert(kw_brighten_s@ =~= kw_brighten());
        assert(kw_huerot_s@ =~= kw_huerot());
        assert(kw_contrast_s@ =~= kw_contrast());
        assert(kw_scatter_s@ =~= kw_scatter());
        assert(kw_brownian_s@ =~= kw_brownian());
    }
    let mut idx: usize = 0;
    let mut done = false;
    while !done && idx < toks.len()
        invariant
            idx <= toks@.len(),
            tv == crate::line_parser::toks_view(toks@),
            tv.len() == toks@.len(),
            kw_img_s@ == kw_img(),
            kw_pos_s@ == kw_pos(),
            kw_size_s@ == kw_size(),
            kw_crop_s@ == kw_crop(),
            kw_blur_s@ == kw_blur(),
            kw_opacity_s@ == kw_opacity(),
            kw_brighten_s@ == kw_brighten(),
            kw_huerot_s@ == kw_huerot(),
            kw_contrast_s@ == kw_contrast(),
            kw_scatter_s@ == kw_scatter(),
            kw_brownian_s@ == kw_brownian(),
            !done ==> interp_toks_at(tv, 0, catalog@, st0) == interp_toks_at(
                tv,
                idx as int,
                catalog@,
                (InterpV { reg: reg@, cur: cur_view(*cur) }),
            ),
            done ==> interp_toks_at(tv, 0, catalog@, st0) == (InterpV {
                reg: reg@,
                cur: cur_view(*cur),
            }),
        decreases toks@.len() - idx, (if done {
            0int
        } else {
            1int
        }),
    {
        let ghost st_here = InterpV { reg: reg@, cur: cur_view(*cur) };
        match &toks[idx] {
            ParserResult::String(w) => {
                if *w == kw_img_s {
                    if idx + 1 < toks.len() {
                        match &toks[idx + 1] {
                            ParserResult::String(name) => {
                                if catalog.resolves(name) {
                                    add_image(&mut reg.images, name);
                                    reset_effects(&mut reg.effects, name);
                                    *cur = Some(name.clone());
                                    proof {
                                        assert(InterpV { reg: reg@, cur: cur_view(*cur) }
                                            == img_success(st_here, name@));
                                    }
                                    idx = idx + 2;
                                } else {
                                    *cur = None;
                                    done = true;
                                }
                            },
                            _ => {
                                idx = idx + 2;
                            },
                        }
                    } else {
                        done = true;
                    }
                } else if *w == kw_pos_s || *w == kw_size_s {
                    let is_pos = *w == kw_pos_s;
                    let g = grab_x(toks, idx + 1, 2);
                    match g.0 {
                        Option::Some(mut ps) => {
                            if cur.is_some() {
                                let b = ps.pop().unwrap();
                                let a = ps.pop().unwrap();
                                let namec = match cur {
                                    Option::Some(name) => name.clone(),
                                    Option::None => String::new(),
                                };
                                if is_pos {
                                    set_pair(&mut reg.positions, &namec, a, b);
                                } else {
                                    set_pair(&mut reg.sizes, &namec, a, b);
                                }
                            }
                            idx = g.1;
                        },
                        Option::None => {
                            idx = g.1;
                        },
                    }
                } else if *w == kw_crop_s {
                    let g = grab_x(toks, idx + 1, 4);
                    match g.0 {
                        Option::Some(mut ps) => {
                            if cur.is_some() {
                                let d = ps.pop().unwrap();
                                let c = ps.pop().unwrap();
                                let b = ps.pop().unwrap();
                                let a = ps.pop().unwrap();
                                let namec = match cur {
                                    Option::Some(name) => name.clone(),
                                    Option::None => String::new(),
                                };
                                append_effect(&mut reg.effects, &namec, Effect::Crop(a, b, c, d));
                            }
                            idx = g.1;
                        },
                        Option::None => {
                            idx = g.1;
                        },
                    }
                } else if *w == kw_blur_s || *w == kw_opacity_s || *w == kw_brighten_s || *w
                    == kw_huerot_s || *w == kw_contrast_s || *w == kw_scatter_s || *w
                    == kw_brownian_s {
                    let g = grab_x(toks, idx + 1, 1);
                    match g.0 {
                        Option::Some(mut ps) => {
                            if cur.is_some() {
                                let a = ps.pop().unwrap();
                                let namec = match cur {
                                    Option::Some(name) => name.clone(),
                                    Option::None => String::new(),
                                };
                                let e: Effect = if *w == kw_blur_s {
                                    Effect::Blur(a)
                                } else if *w == kw_opacity_s {
                                    Effect::Opacity(a)
                                } else if *w == kw_brighten_s {
                                    Effect::Brighten(a)
                                } else if *w == kw_huerot_s {
                                    Effect::HueRot(a)
                                } else if *w == kw_contrast_s {
                                    Effect::Contrast(a)
                                } else if *w == kw_scatter_s {
                                    Effect::Scatter(a)
                                } else {
                                    Effect::Brownian(a)
                                };
                                proof {
                                    assert(e@ == eff1_of(w@, a@));
                                }
                                append_effect(&mut reg.effects, &namec, e);
                            }
                            idx = g.1;
                        },
                        Option::None => {
                            idx = g.1;
                        },
                    }
                } else {
                    idx = idx + 1;
                }
            },
            _ => {
                idx = idx + 1;
            },
        }
    }
}

} // verus!

