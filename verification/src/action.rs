use vstd::prelude::*;

use crate::format::OutFormat;
use crate::geometry::{auto_dim, dims_ok, mul_dims, rdiv, scale_dim, MAX_PIXELS};
use crate::img::{new_canvas, Img};
use crate::misc::flag_is_enabled;
use crate::registry::{LoadError, Registry};
use crate::strutil::str_eq;

verus! {

/// One editing step. Fractional parameters (blur sigma, contrast amount,
/// unsharpen sigma) travel as the decimal text the caller supplied; the
/// pixel-level filter math is the codec library's business and out of the
/// pipeline's model.
#[derive(Debug, PartialEq, Eq)]
pub enum Action {
    Invert,
    Blur(String),
    Brightness(i32),
    Contrast(String),
    Rotate(Direction),
    Crop(u32, u32, u32, u32),
    Unsharpen(String, i32),
    Scale(u32, u32),
    Append(String, Direction),
    Flip(Orientation),
    Format(OutFormat),
}

/// The mirror axis of a Flip.
#[derive(Clone, Copy, Debug, PartialEq, Eq, Structural)]
pub enum Orientation {
    Vertical,
    Horizontal,
}

/// A quarter-turn count for Rotate, or the side an Append attaches to.
/// Rotation: Up is a full turn (no-op), Right a quarter turn clockwise,
/// Down a half turn, Left a quarter turn counter-clockwise.
#[derive(Clone, Copy, Debug, PartialEq, Eq, Structural)]
pub enum Direction {
    Up,
    Down,
    Left,
    Right,
}

/// The run-wide switches an action's behavior may consult.
#[derive(Clone, Copy, Debug, Hash, PartialEq, Eq, Structural)]
pub enum Flag {
    Lanczos3,
}

/// The flag table: each flag maps to an explicit setting or is absent.
pub struct FlagMap {
    lanczos3: Option<bool>,
}

impl FlagMap {
    /// The recorded setting of a flag.
    pub closed spec fn spec_get(self, f: Flag) -> Option<bool> {
        match f {
            Flag::Lanczos3 => self.lanczos3,
        }
    }

    /// A table with no flag set.
    pub fn empty() -> (r: FlagMap)
        ensures
            forall|f: Flag| r.spec_get(f) is None,
    {
        FlagMap { lanczos3: None }
    }

    /// Record a flag's setting.
    pub fn set(&mut self, f: Flag, value: bool)
        ensures
            final(self).spec_get(f) == Some(value),
            forall|g: Flag| g != f ==> final(self).spec_get(g) == old(self).spec_get(g),
    {
        match f {
            Flag::Lanczos3 => self.lanczos3 = Some(value),
        }
    }

    /// Look a flag up, as the flag table of the command line hands it out.
    pub fn get(&self, f: Flag) -> (r: Option<&bool>)
        ensures
            match r {
                Some(b) => self.spec_get(f) == Some(*b),
                None => self.spec_get(f) is None,
            },
    {
        match f {
            Flag::Lanczos3 => self.lanczos3.as_ref(),
        }
    }
}

/// Why a run was aborted. Every abort is fatal: no partial image is handed
/// out.
#[derive(Clone, Copy, Debug, PartialEq, Eq, Structural)]
pub enum ApplyError {
    /// An image path no load task was registered for.
    UnknownPath,
    /// A load task gave up without delivering an image.
    LoadFailed,
    /// A delivered image was empty or beyond the pipeline's size bound.
    UnusableImage,
    /// A crop rectangle empty or not fully inside the working image.
    CropOutOfBounds,
    /// Scale with both target dimensions zero.
    BadScale,
    /// A produced image would not fit in `u32` dimensions or would exceed
    /// the pipeline's size bound.
    TooLarge,
}

/// The dimensions Scale produces on a `w x h` working image: a zero target
/// is computed from the aspect ratio at the other target; both zero is an
/// error; anything beyond `u32` or the size bound is an error.
pub open spec fn scale_dims(w: nat, h: nat, sw: nat, sh: nat) -> Option<(nat, nat)> {
    if sw == 0 && sh == 0 {
        None
    } else if sw == 0 {
        let nw = auto_dim(w, h, sh);
        if nw <= u32::MAX as nat && nw * sh <= MAX_PIXELS as nat {
            Some((nw, sh))
        } else {
            None
        }
    } else if sh == 0 {
        let nh = auto_dim(h, w, sw);
        if nh <= u32::MAX as nat && sw * nh <= MAX_PIXELS as nat {
            Some((sw, nh))
        } else {
            None
        }
    } else {
        if sw * sh <= MAX_PIXELS as nat {
            Some((sw, sh))
        } else {
            None
        }
    }
}

/// The dimensions Append produces: the appended image (`aw x ah`) is first
/// rescaled, keeping its aspect ratio, to the working image's width for a
/// vertical composition or height for a horizontal one; the canvas is their
/// union. An error wherever a produced dimension leaves `u32` or the canvas
/// leaves the size bound.
pub open spec fn append_dims(w: nat, h: nat, aw: nat, ah: nat, dir: Direction) -> Option<
    (nat, nat),
> {
    if dir == Direction::Up || dir == Direction::Down {
        let rh = auto_dim(ah, aw, w);
        if rh <= u32::MAX as nat && w * rh <= MAX_PIXELS as nat && h + rh <= u32::MAX as nat && w
            * (h + rh) <= MAX_PIXELS as nat {
            Some((w, h + rh))
        } else {
            None
        }
    } else {
        let rw = auto_dim(aw, ah, h);
        if rw <= u32::MAX as nat && rw * h <= MAX_PIXELS as nat && w + rw <= u32::MAX as nat && (w
            + rw) * h <= MAX_PIXELS as nat {
            Some((w + rw, h))
        } else {
            None
        }
    }
}

/// The dimensions one action leaves on a `w x h` working image, with `reg`
/// the registry as it stands at the end of the run. `None` is a fatal abort.
/// An Append of the primary path composes the working image with itself as
/// transformed so far; any other path must have been delivered.
pub open spec fn step_dims(
    infile: Seq<char>,
    w: nat,
    h: nat,
    reg: Registry,
    a: Action,
) -> Option<(nat, nat)> {
    match a {
        Action::Invert => Some((w, h)),
        Action::Blur(_) => Some((w, h)),
        Action::Brightness(_) => Some((w, h)),
        Action::Contrast(_) => Some((w, h)),
        Action::Unsharpen(_, _) => Some((w, h)),
        Action::Flip(_) => Some((w, h)),
        Action::Format(_) => Some((w, h)),
        Action::Rotate(d) => if d == Direction::Left || d == Direction::Right {
            Some((h, w))
        } else {
            Some((w, h))
        },
        Action::Crop(x, y, cw, ch) => if 1 <= cw && 1 <= ch && x + cw <= w && y + ch <= h {
            Some((cw as nat, ch as nat))
        } else {
            None
        },
        Action::Scale(sw, sh) => scale_dims(w, h, sw as nat, sh as nat),
        Action::Append(p, dir) => if p@ == infile {
            append_dims(w, h, w, h, dir)
        } else if reg.delivered(p@) {
            append_dims(w, h, reg.image_at(p@).w(), reg.image_at(p@).h(), dir)
        } else {
            None
        },
    }
}

/// The dimensions a whole action sequence leaves, folded in order from the
/// first action; `None` as soon as any step aborts.
pub open spec fn run_dims(
    infile: Seq<char>,
    w: nat,
    h: nat,
    reg: Registry,
    actions: Seq<Action>,
) -> Option<(nat, nat)>
    decreases actions.len(),
{
    if actions.len() == 0 {
        Some((w, h))
    } else {
        match step_dims(infile, w, h, reg, actions[0]) {
            Some(d) => run_dims(infile, d.0, d.1, reg, actions.subrange(1, actions.len() as int)),
            None => None,
        }
    }
}

/// The output encoding in effect after the actions: the last Format action
/// wins; without one, the default stands.
pub open spec fn resolve_format(fmt: OutFormat, actions: Seq<Action>) -> OutFormat
    decreases actions.len(),
{
    if actions.len() == 0 {
        fmt
    } else {
        let next = match actions[0] {
            Action::Format(f) => f,
            _ => fmt,
        };
        resolve_format(next, actions.subrange(1, actions.len() as int))
    }
}

/// Splitting a run: the dimensions after `s1 + s2` are those of `s2` run
/// from wherever `s1` ended, and an abort inside `s1` aborts the whole.
pub proof fn lemma_run_dims_concat(
    infile: Seq<char>,
    w: nat,
    h: nat,
    reg: Registry,
    s1: Seq<Action>,
    s2: Seq<Action>,
)
    ensures
        run_dims(infile, w, h, reg, s1 + s2) == match run_dims(infile, w, h, reg, s1) {
            Some(d) => run_dims(infile, d.0, d.1, reg, s2),
            None => None::<(nat, nat)>,
        },
    decreases s1.len(),
{
    if s1.len() == 0 {
        assert(s1 + s2 =~= s2);
    } else {
        assert((s1 + s2)[0] == s1[0]);
        assert((s1 + s2).subrange(1, (s1 + s2).len() as int) =~= s1.subrange(
            1,
            s1.len() as int,
        ) + s2);
        match step_dims(infile, w, h, reg, s1[0]) {
            Some(d) => {
                lemma_run_dims_concat(infile, d.0, d.1, reg, s1.subrange(1, s1.len() as int), s2);
            },
            None => {},
        }
    }
}

/// One more action at the end: run the prefix, then step once.
pub proof fn lemma_run_dims_snoc(
    infile: Seq<char>,
    w: nat,
    h: nat,
    reg: Registry,
    s: Seq<Action>,
    a: Action,
)
    ensures
        run_dims(infile, w, h, reg, s.push(a)) == match run_dims(infile, w, h, reg, s) {
            Some(d) => step_dims(infile, d.0, d.1, reg, a),
            None => None::<(nat, nat)>,
        },
{
    reveal_with_fuel(run_dims, 2);
    assert(s.push(a) =~= s + seq![a]);
    lemma_run_dims_concat(infile, w, h, reg, s, seq![a]);
    match run_dims(infile, w, h, reg, s) {
        Some(d) => {
            assert(seq![a][0] == a);
            assert(seq![a].subrange(1, 1) =~= Seq::<Action>::empty());
        },
        None => {},
    }
}

/// A successful run reads only delivered images, so a registry that extends
/// the one it ran against gives the same result.
pub proof fn lemma_run_dims_extends(
    infile: Seq<char>,
    w: nat,
    h: nat,
    r1: Registry,
    r2: Registry,
    s: Seq<Action>,
)
    requires
        r2.extends(r1),
        run_dims(infile, w, h, r1, s) is Some,
    ensures
        run_dims(infile, w, h, r2, s) == run_dims(infile, w, h, r1, s),
    decreases s.len(),
{
    if s.len() > 0 {
        assert(step_dims(infile, w, h, r2, s[0]) == step_dims(infile, w, h, r1, s[0])) by {
            match s[0] {
                Action::Append(p, dir) => {
                    if p@ != infile {
                        assert(r1.delivered(p@));
                    }
                },
                _ => {},
            }
        }
        let d = step_dims(infile, w, h, r1, s[0])->0;
        lemma_run_dims_extends(infile, d.0, d.1, r1, r2, s.subrange(1, s.len() as int));
    }
}

/// Law: a Scale with exactly one target zero keeps the nonzero dimension
/// exactly and computes the other from the aspect ratio, within rounding:
/// the cross products of the new and the old dimensions differ by at most
/// half a denominator (except when the rounded value would have been 0 and 1
/// is used).
pub proof fn lemma_scale_auto_dimension(w: nat, h: nat, sw: nat, sh: nat, rw: nat, rh: nat)
    requires
        dims_ok(w, h),
        (sw == 0 && 1 <= sh) || (sh == 0 && 1 <= sw),
        scale_dims(w, h, sw, sh) == Some((rw, rh)),
    ensures
        sw == 0 ==> {
            &&& rh == sh
            &&& rw == auto_dim(w, h, sh)
            &&& (rdiv(w * sh, h) >= 1 ==> 2 * (rw * h) <= 2 * (w * sh) + h && 2 * (w * sh) <= 2 * (
            rw * h) + h)
        },
        sh == 0 ==> {
            &&& rw == sw
            &&& rh == auto_dim(h, w, sw)
            &&& (rdiv(h * sw, w) >= 1 ==> 2 * (rh * w) <= 2 * (h * sw) + w && 2 * (h * sw) <= 2 * (
            rh * w) + w)
        },
{
    if sw == 0 {
        crate::geometry::lemma_auto_dim_aspect(w, h, sh);
    } else {
        crate::geometry::lemma_auto_dim_aspect(h, w, sw);
    }
}

/// Law: a Scale with both targets nonzero produces exactly the requested
/// dimensions, whatever the original aspect ratio.
pub proof fn lemma_scale_exact(w: nat, h: nat, sw: nat, sh: nat)
    requires
        1 <= sw,
        1 <= sh,
        sw * sh <= MAX_PIXELS as nat,
    ensures
        scale_dims(w, h, sw, sh) == Some((sw, sh)),
{
}

/// Law: a vertical Append of images of equal width keeps that width and
/// adds the heights exactly.
pub proof fn lemma_append_equal_width(w: nat, h1: nat, h2: nat, dir: Direction)
    requires
        dims_ok(w, h1),
        dims_ok(w, h2),
        w <= u32::MAX as nat,
        dir == Direction::Up || dir == Direction::Down,
        h1 + h2 <= u32::MAX as nat,
        w * (h1 + h2) <= MAX_PIXELS as nat,
    ensures
        append_dims(w, h1, w, h2, dir) == Some((w, h1 + h2)),
{
    crate::geometry::lemma_auto_dim_identity(h2, w);
}

/// Law: a horizontal Append of images of equal height keeps that height and
/// adds the widths exactly.
pub proof fn lemma_append_equal_height(w1: nat, w2: nat, h: nat, dir: Direction)
    requires
        dims_ok(w1, h),
        dims_ok(w2, h),
        h <= u32::MAX as nat,
        dir == Direction::Left || dir == Direction::Right,
        w1 + w2 <= u32::MAX as nat,
        (w1 + w2) * h <= MAX_PIXELS as nat,
    ensures
        append_dims(w1, h, w2, h, dir) == Some((w1 + w2, h)),
{
    crate::geometry::lemma_auto_dim_identity(w2, h);
}

/// Law: an Append of the primary path composes the working image as
/// transformed so far. The step reads the current working dimensions twice
/// over and never consults the registry, whichever registry stands.
pub proof fn lemma_self_append_current(
    infile: Seq<char>,
    p: String,
    w: nat,
    h: nat,
    r1: Registry,
    r2: Registry,
    dir: Direction,
)
    requires
        p@ == infile,
    ensures
        step_dims(infile, w, h, r1, Action::Append(p, dir)) == append_dims(w, h, w, h, dir),
        step_dims(infile, w, h, r1, Action::Append(p, dir)) == step_dims(
            infile,
            w,
            h,
            r2,
            Action::Append(p, dir),
        ),
{
}

/// Law: on dimensions, rotating Down twice is the identity, as are four
/// quarter turns Right, and Up alone; a lossy filter may change pixels, the
/// dimensions it may not.
pub proof fn lemma_rotate_identities(infile: Seq<char>, w: nat, h: nat, reg: Registry)
    ensures
        run_dims(
            infile,
            w,
            h,
            reg,
            seq![Action::Rotate(Direction::Down), Action::Rotate(Direction::Down)],
        ) == Some((w, h)),
        run_dims(
            infile,
            w,
            h,
            reg,
            seq![
                Action::Rotate(Direction::Right),
                Action::Rotate(Direction::Right),
                Action::Rotate(Direction::Right),
                Action::Rotate(Direction::Right),
            ],
        ) == Some((w, h)),
        step_dims(infile, w, h, reg, Action::Rotate(Direction::Up)) == Some((w, h)),
{
    reveal_with_fuel(run_dims, 5);
    let two = seq![Action::Rotate(Direction::Down), Action::Rotate(Direction::Down)];
    assert(two.subrange(1, 2) =~= seq![Action::Rotate(Direction::Down)]);
    assert(seq![Action::Rotate(Direction::Down)].subrange(1, 1) =~= Seq::<Action>::empty());
    let four = seq![
        Action::Rotate(Direction::Right),
        Action::Rotate(Direction::Right),
        Action::Rotate(Direction::Right),
        Action::Rotate(Direction::Right),
    ];
    assert(four.subrange(1, 4) =~= seq![
        Action::Rotate(Direction::Right),
        Action::Rotate(Direction::Right),
        Action::Rotate(Direction::Right),
    ]);
    assert(four.subrange(1, 4).subrange(1, 3) =~= seq![
        Action::Rotate(Direction::Right),
        Action::Rotate(Direction::Right),
    ]);
    assert(four.subrange(1, 4).subrange(1, 3).subrange(1, 2) =~= seq![
        Action::Rotate(Direction::Right),
    ]);
    assert(seq![Action::Rotate(Direction::Right)].subrange(1, 1) =~= Seq::<Action>::empty());
}

/// Law: the last Format action in the sequence decides the output encoding,
/// whatever default the output file name gave.
pub proof fn lemma_format_last_wins(fmt: OutFormat, s: Seq<Action>, f: OutFormat)
    ensures
        resolve_format(fmt, s.push(Action::Format(f))) == f,
{
    lemma_resolve_format_snoc(fmt, s, Action::Format(f));
}

/// Compose `extra` beside `working`: rescale `extra`, keeping its aspect
/// ratio, to the working image's width (vertical) or height (horizontal),
/// allocate the union canvas, and blit both at their direction's offsets.
fn append_to(working: Img, extra: &Img, dir: Direction, high_quality: bool) -> (r: Result<
    Img,
    ApplyError,
>)
    requires
        working.wf(),
        extra.wf(),
    ensures
        match r {
            Ok(img) => img.wf() && Some((img.w(), img.h())) == append_dims(
                working.w(),
                working.h(),
                extra.w(),
                extra.h(),
                dir,
            ),
            Err(e) => {
                &&& append_dims(working.w(), working.h(), extra.w(), extra.h(), dir) is None
                &&& e == ApplyError::TooLarge
            },
        },
{
    let w = working.width();
    let h = working.height();
    if dir == Direction::Up || dir == Direction::Down {
        let rh = match scale_dim(extra.height(), extra.width(), w) {
            Some(v) => v,
            None => {
                return Err(ApplyError::TooLarge);
            },
        };
        if mul_dims(w, rh) > MAX_PIXELS {
            return Err(ApplyError::TooLarge);
        }
        if (h as u64) + (rh as u64) > u32::MAX as u64 {
            return Err(ApplyError::TooLarge);
        }
        let ch = h + rh;
        if mul_dims(w, ch) > MAX_PIXELS {
            return Err(ApplyError::TooLarge);
        }
        let resized = extra.resize_exact(w, rh, high_quality);
        let mut canvas = new_canvas(w, ch);
        if dir == Direction::Up {
            canvas.copy_from(&resized, 0, 0);
            canvas.copy_from(&working, 0, rh);
        } else {
            canvas.copy_from(&working, 0, 0);
            canvas.copy_from(&resized, 0, h);
        }
        Ok(canvas)
    } else {
        let rw = match scale_dim(extra.width(), extra.height(), h) {
            Some(v) => v,
            None => {
                return Err(ApplyError::TooLarge);
            },
        };
        if mul_dims(rw, h) > MAX_PIXELS {
            return Err(ApplyError::TooLarge);
        }
        if (w as u64) + (rw as u64) > u32::MAX as u64 {
            return Err(ApplyError::TooLarge);
        }
        let cw = w + rw;
        if mul_dims(cw, h) > MAX_PIXELS {
            return Err(ApplyError::TooLarge);
        }
        let resized = extra.resize_exact(rw, h, high_quality);
        let mut canvas = new_canvas(cw, h);
        if dir == Direction::Left {
            canvas.copy_from(&resized, 0, 0);
            canvas.copy_from(&working, rw, 0);
        } else {
            canvas.copy_from(&working, 0, 0);
            canvas.copy_from(&resized, w, 0);
        }
        Ok(canvas)
    }
}

/// Apply one non-Format action to the working image. The result's
/// dimensions are exactly what `step_dims` gives against the registry as the
/// call leaves it; a rotation by Up returns the working image untouched,
/// byte for byte.
pub fn apply_one(
    infile: &str,
    working: Img,
    action: &Action,
    flags: &FlagMap,
    images: &mut Registry,
) -> (r: Result<Img, ApplyError>)
    requires
        working.wf(),
        old(images).wf(),
    ensures
        final(images).wf(),
        final(images).extends(*old(images)),
        forall|k: Seq<char>| #[trigger] final(images).registered(k) == old(images).registered(k),
        match r {
            Ok(img) => img.wf() && Some((img.w(), img.h())) == step_dims(
                infile@,
                working.w(),
                working.h(),
                *final(images),
                *action,
            ),
            Err(_) => step_dims(infile@, working.w(), working.h(), *final(images), *action)
                is None,
        },
        *action matches Action::Rotate(Direction::Up) ==> r == Ok::<Img, ApplyError>(working),
        r == Err::<Img, ApplyError>(ApplyError::CropOutOfBounds) <==> (*action matches Action::Crop(
            x,
            y,
            cw,
            ch,
        ) && !(1 <= cw && 1 <= ch && x + cw <= working.w() && y + ch <= working.h())),
        r == Err::<Img, ApplyError>(ApplyError::BadScale) <==> (*action matches Action::Scale(
            sw,
            sh,
        ) && sw == 0 && sh == 0),
        r == Err::<Img, ApplyError>(ApplyError::UnknownPath) <==> (*action matches Action::Append(
            p,
            _,
        ) && p@ != infile@ && !old(images).registered(p@)),
        (r == Err::<Img, ApplyError>(ApplyError::LoadFailed) || r == Err::<Img, ApplyError>(
            ApplyError::UnusableImage,
        )) ==> (*action matches Action::Append(p, _) && p@ != infile@ && old(images).registered(
            p@,
        ) && !old(images).delivered(p@)),
{
    match action {
        Action::Invert => {
            let mut img = working;
            img.invert();
            Ok(img)
        },
        Action::Contrast(amount) => Ok(working.adjust_contrast(amount.as_str())),
        Action::Brightness(delta) => Ok(working.brighten(*delta)),
        Action::Blur(sigma) => Ok(working.blur(sigma.as_str())),
        Action::Unsharpen(sigma, threshold) => Ok(working.unsharpen(sigma.as_str(), *threshold)),
        Action::Crop(x, y, cw, ch) => {
            if *cw == 0 || *ch == 0 {
                return Err(ApplyError::CropOutOfBounds);
            }
            if (*x as u64) + (*cw as u64) > working.width() as u64 || (*y as u64) + (*ch as u64)
                > working.height() as u64 {
                return Err(ApplyError::CropOutOfBounds);
            }
            proof {
                assert((*cw as nat) * (*ch as nat) <= working.w() * working.h())
                    by (nonlinear_arith)
                    requires
                        1 <= *cw as nat <= working.w(),
                        1 <= *ch as nat <= working.h(),
                ;
            }
            Ok(working.crop(*x, *y, *cw, *ch))
        },
        Action::Rotate(d) => {
            proof {
                assert(working.h() * working.w() == working.w() * working.h())
                    by (nonlinear_arith);
            }
            match d {
                Direction::Right => Ok(working.rotate90()),
                Direction::Left => Ok(working.rotate270()),
                Direction::Down => Ok(working.rotate180()),
                Direction::Up => Ok(working),
            }
        },
        Action::Flip(orientation) => {
            match orientation {
                Orientation::Vertical => Ok(working.flipv()),
                Orientation::Horizontal => Ok(working.fliph()),
            }
        },
        Action::Scale(sw, sh) => {
            let high_quality = flag_is_enabled(flags.get(Flag::Lanczos3));
            let sw = *sw;
            let sh = *sh;
            if sw == 0 && sh == 0 {
                return Err(ApplyError::BadScale);
            }
            if sw == 0 {
                let nw = match scale_dim(working.width(), working.height(), sh) {
                    Some(v) => v,
                    None => {
                        return Err(ApplyError::TooLarge);
                    },
                };
                if mul_dims(nw, sh) > MAX_PIXELS {
                    return Err(ApplyError::TooLarge);
                }
                Ok(working.resize_exact(nw, sh, high_quality))
            } else if sh == 0 {
                let nh = match scale_dim(working.height(), working.width(), sw) {
                    Some(v) => v,
                    None => {
                        return Err(ApplyError::TooLarge);
                    },
                };
                if mul_dims(sw, nh) > MAX_PIXELS {
                    return Err(ApplyError::TooLarge);
                }
                Ok(working.resize_exact(sw, nh, high_quality))
            } else {
                if mul_dims(sw, sh) > MAX_PIXELS {
                    return Err(ApplyError::TooLarge);
                }
                Ok(working.resize_exact(sw, sh, high_quality))
            }
        },
        Action::Append(path, dir) => {
            let high_quality = flag_is_enabled(flags.get(Flag::Lanczos3));
            if str_eq(path.as_str(), infile) {
                let extra = working.duplicate();
                append_to(working, &extra, *dir, high_quality)
            } else {
                let extra = match images.deliver(path.as_str()) {
                    Ok(img) => img,
                    Err(e) => {
                        return Err(
                            match e {
                                LoadError::UnknownPath => ApplyError::UnknownPath,
                                LoadError::Failed => ApplyError::LoadFailed,
                                LoadError::Unusable => ApplyError::UnusableImage,
                            },
                        );
                    },
                };
                append_to(working, &extra, *dir, high_quality)
            }
        },
        Action::Format(_) => Ok(working),
    }
}

/// Run the whole pipeline: take the primary image for `infile` from the
/// registry, apply every action in order, and return the final image with
/// the output format in effect after the last action. Succeeds exactly when
/// the primary image is delivered and no step aborts; on an abort nothing is
/// returned.
pub fn apply_actions(
    infile: &str,
    out_format: OutFormat,
    actions: Vec<Action>,
    flags: &FlagMap,
    images: &mut Registry,
) -> (r: Result<(Img, OutFormat), ApplyError>)
    requires
        old(images).wf(),
    ensures
        final(images).wf(),
        final(images).extends(*old(images)),
        forall|k: Seq<char>| #[trigger] final(images).registered(k) == old(images).registered(k),
        match r {
            Ok((img, fmt)) => {
                &&& img.wf()
                &&& final(images).delivered(infile@)
                &&& Some((img.w(), img.h())) == run_dims(
                    infile@,
                    final(images).image_at(infile@).w(),
                    final(images).image_at(infile@).h(),
                    *final(images),
                    actions@,
                )
                &&& fmt == resolve_format(out_format, actions@)
            },
            Err(_) => !final(images).delivered(infile@) || run_dims(
                infile@,
                final(images).image_at(infile@).w(),
                final(images).image_at(infile@).h(),
                *final(images),
                actions@,
            ) is None,
        },
{
    let primary = match images.deliver(infile) {
        Ok(img) => img,
        Err(e) => {
            return Err(
                match e {
                    LoadError::UnknownPath => ApplyError::UnknownPath,
                    LoadError::Failed => ApplyError::LoadFailed,
                    LoadError::Unusable => ApplyError::UnusableImage,
                },
            );
        },
    };
    let ghost prim = primary;
    let ghost reg0 = *images;
    let mut working = primary;
    let mut fmt = out_format;
    let mut idx: usize = 0;
    while idx < actions.len()
        invariant
            images.wf(),
            working.wf(),
            idx <= actions@.len(),
            images.extends(*old(images)),
            images.extends(reg0),
            forall|k: Seq<char>|
                #[trigger] images.registered(k) == old(images).registered(k),
            images.delivered(infile@),
            images.image_at(infile@) == prim,
            run_dims(infile@, prim.w(), prim.h(), *images, actions@.take(idx as int)) == Some(
                (working.w(), working.h()),
            ),
            fmt == resolve_format(out_format, actions@.take(idx as int)),
        decreases actions@.len() - idx,
    {
        let ghost pre = *images;
        let ghost prefix = actions@.take(idx as int);
        let action = &actions[idx];
        proof {
            assert(actions@.take(idx as int + 1) =~= prefix.push(actions@[idx as int]));
        }
        match action {
            Action::Format(f) => {
                fmt = *f;
                proof {
                    lemma_run_dims_snoc(
                        infile@,
                        prim.w(),
                        prim.h(),
                        *images,
                        prefix,
                        actions@[idx as int],
                    );
                    lemma_resolve_format_snoc(out_format, prefix, actions@[idx as int]);
                }
            },
            _ => {
                working = match apply_one(infile, working, action, flags, images) {
                    Ok(img) => img,
                    Err(e) => {
                        proof {
                            lemma_run_dims_extends(
                                infile@,
                                prim.w(),
                                prim.h(),
                                pre,
                                *images,
                                prefix,
                            );
                            lemma_run_dims_snoc(
                                infile@,
                                prim.w(),
                                prim.h(),
                                *images,
                                prefix,
                                actions@[idx as int],
                            );
                            assert(actions@ =~= actions@.take(idx as int + 1) + actions@.skip(
                                idx as int + 1,
                            ));
                            lemma_run_dims_concat(
                                infile@,
                                prim.w(),
                                prim.h(),
                                *images,
                                actions@.take(idx as int + 1),
                                actions@.skip(idx as int + 1),
                            );
                        }
                        return Err(e);
                    },
                };
                proof {
                    lemma_run_dims_extends(infile@, prim.w(), prim.h(), pre, *images, prefix);
                    lemma_run_dims_snoc(
                        infile@,
                        prim.w(),
                        prim.h(),
                        *images,
                        prefix,
                        actions@[idx as int],
                    );
                    lemma_resolve_format_snoc(out_format, prefix, actions@[idx as int]);
                }
            },
        }
        idx += 1;
    }
    proof {
        assert(actions@.take(actions@.len() as int) =~= actions@);
    }
    Ok((working, fmt))
}

/// One more action at the end for format resolution: a Format action
/// replaces whatever was resolved before it, anything else leaves it.
pub proof fn lemma_resolve_format_snoc(fmt: OutFormat, s: Seq<Action>, a: Action)
    ensures
        resolve_format(fmt, s.push(a)) == match a {
            Action::Format(f) => f,
            _ => resolve_format(fmt, s),
        },
    decreases s.len(),
{
    reveal_with_fuel(resolve_format, 2);
    if s.len() == 0 {
        assert(s.push(a)[0] == a);
        assert(s.push(a).subrange(1, 1) =~= Seq::<Action>::empty());
    } else {
        assert(s.push(a)[0] == s[0]);
        assert(s.push(a).subrange(1, s.len() as int + 1) =~= s.subrange(1, s.len() as int).push(
            a,
        ));
        let next = match s[0] {
            Action::Format(f) => f,
            _ => fmt,
        };
        lemma_resolve_format_snoc(next, s.subrange(1, s.len() as int), a);
    }
}

} // verus!
