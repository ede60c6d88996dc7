use vstd::prelude::*;

verus! {

/// The speaker layout that the stereo input is upmixed to.
#[derive(Clone, Copy, Debug, PartialEq, Eq, Structural)]
pub enum ChannelLayout {
    /// Front left/right and rear left/right.
    Four,
    /// The four channels plus a front center.
    Five,
    /// The five channels plus a low-frequency-effects channel.
    FiveOne,
}

impl ChannelLayout {
    pub open spec fn spec_has_center(self) -> bool {
        self != ChannelLayout::Four
    }

    pub open spec fn spec_has_lfe(self) -> bool {
        self == ChannelLayout::FiveOne
    }

    /// Whether a center channel is produced.
    pub fn has_center(&self) -> (r: bool)
        ensures
            r == self.spec_has_center(),
    {
        !matches!(self, ChannelLayout::Four)
    }

    /// Whether a low-frequency-effects channel is produced.
    pub fn has_lfe(&self) -> (r: bool)
        ensures
            r == self.spec_has_lfe(),
    {
        matches!(self, ChannelLayout::FiveOne)
    }
}

} // verus!

verus! {

/// The decode-matrix family that steers the upmix.
#[derive(Clone, Copy, Debug, PartialEq, Eq, Structural)]
pub enum MatrixFormat {
    Default,
    QS,
    HorseShoe,
    DolbyStereo,
    SQ,
    SQExperimental,
}

impl MatrixFormat {
    /// Families that encode left/right by phase steer left and right by
    /// amplitude mixing; the others steer each channel independently.
    pub open spec fn spec_steers_right_left(self) -> bool {
        self == MatrixFormat::SQ || self == MatrixFormat::SQExperimental
    }

    /// Whether this family uses the left/right mixing steering algorithm.
    pub fn steers_right_left(&self) -> (r: bool)
        ensures
            r == self.spec_steers_right_left(),
    {
        matches!(self, MatrixFormat::SQ | MatrixFormat::SQExperimental)
    }
}

pub open spec fn is_digit(c: char) -> bool {
    '0' <= c <= '9'
}

pub open spec fn digit_value(c: char) -> nat {
    ((c as u32) - ('0' as u32)) as nat
}

pub open spec fn all_digits(s: Seq<char>) -> bool {
    forall|i: int| 0 <= i < s.len() ==> is_digit(#[trigger] s[i])
}

/// The value of a run of decimal digits.
pub open spec fn digits_value(s: Seq<char>) -> nat
    decreases s.len(),
{
    if s.len() == 0 {
        0
    } else {
        digits_value(s.drop_last()) * 10 + digit_value(s.last())
    }
}

/// The digits of a decimal numeral, after an optional leading `+`.
pub open spec fn numeral_digits(s: Seq<char>) -> Seq<char> {
    if s.len() > 0 && s[0] == '+' {
        s.drop_first()
    } else {
        s
    }
}

/// The unsigned integer that `s` spells in decimal: an optional `+`, then
/// one or more digits, with a value that fits in `usize`.
pub open spec fn decimal_of(s: Seq<char>) -> Option<usize> {
    let d = numeral_digits(s);
    if d.len() > 0 && all_digits(d) && digits_value(d) <= usize::MAX {
        Some(digits_value(d) as usize)
    } else {
        None
    }
}

proof fn lemma_digits_value_grows(s: Seq<char>, k: int)
    requires
        0 <= k <= s.len(),
        forall|i: int| 0 <= i < s.len() ==> is_digit(#[trigger] s[i]),
    ensures
        digits_value(s) >= digits_value(s.subrange(0, k)),
    decreases s.len(),
{
    if k < s.len() {
        let t = s.drop_last();
        assert(t.subrange(0, k) =~= s.subrange(0, k));
        lemma_digits_value_grows(t, k);
    } else {
        assert(s.subrange(0, k) =~= s);
    }
}

/// Reads an unsigned decimal integer, as `usize`'s `FromStr` does.
pub fn parse_decimal(s: &str) -> (r: Option<usize>)
    ensures
        r == decimal_of(s@),
{
    let len = s.unicode_len();
    let start: usize = if len > 0 && s.get_char(0) == '+' { 1 } else { 0 };
    let ghost d = numeral_digits(s@);
    assert(d =~= s@.subrange(start as int, len as int));
    if start == len {
        return None;
    }
    let mut value: usize = 0;
    let mut i: usize = start;
    while i < len
        invariant
            start <= i <= len,
            len == s@.len(),
            d == s@.subrange(start as int, len as int),
            d == numeral_digits(s@),
            forall|j: int| start <= j < i ==> is_digit(#[trigger] s@[j]),
            value == digits_value(s@.subrange(start as int, i as int)),
        decreases len - i,
    {
        let c = s.get_char(i);
        if !(c >= '0' && c <= '9') {
            assert(d[i - start] == c);
            assert(!is_digit(d[i - start]));
            return None;
        }
        let digit = (c as u32 - '0' as u32) as usize;
        assert(s@.subrange(start as int, i + 1).drop_last() =~= s@.subrange(start as int, i as int));
        if value > (usize::MAX - digit) / 10 {
            proof {
                assert(value * 10 + digit > usize::MAX) by (nonlinear_arith)
                    requires value > (usize::MAX - digit) / 10, digit <= 9;
                let prefix = s@.subrange(start as int, i + 1);
                assert(prefix.last() == c);
                assert(digits_value(prefix) == value * 10 + digit);
                if all_digits(d) {
                    assert(d.subrange(0, i + 1 - start) =~= s@.subrange(start as int, i + 1));
                    lemma_digits_value_grows(d, i + 1 - start);
                }
            }
            return None;
        }
        assert(value * 10 + digit <= usize::MAX) by (nonlinear_arith)
            requires value <= (usize::MAX - digit) / 10, digit <= 9;
        value = value * 10 + digit;
        i = i + 1;
    }
    assert(all_digits(d)) by {
        assert forall|j: int| 0 <= j < d.len() implies is_digit(#[trigger] d[j]) by {
            assert(d[j] == s@[start + j]);
        }
    }
    Some(value)
}

/// Whether `s` holds exactly the characters of `lit`.
pub fn text_is(s: &str, lit: &str) -> (r: bool)
    ensures
        r == (s@ == lit@),
{
    let n = s.unicode_len();
    if n != lit.unicode_len() {
        return false;
    }
    let mut i: usize = 0;
    while i < n
        invariant
            i <= n,
            n == s@.len(),
            n == lit@.len(),
            forall|j: int| 0 <= j < i ==> s@[j] == lit@[j],
        decreases n - i,
    {
        if s.get_char(i) != lit.get_char(i) {
            return false;
        }
        i = i + 1;
    }
    assert(s@ =~= lit@);
    true
}

} // verus!

verus! {

/// Why the command line was refused. Each variant carries the position, in
/// the argument list, of the argument at fault.
#[derive(Clone, Copy, Debug, PartialEq, Eq, Structural)]
pub enum ArgumentError {
    /// Fewer than a source and a target path were given.
    Usage,
    /// The flag at this position needs a value and is the last argument.
    MissingValue(usize),
    /// The value at this position is not an unsigned integer.
    NotAnInteger(usize),
    /// The transform size at this position is below the smallest one accepted.
    FftSizeTooSmall(usize),
    /// The channel layout at this position is not one of `4`, `5` or `5.1`.
    UnknownChannels(usize),
    /// The decode-matrix name at this position is not known.
    UnknownMatrix(usize),
    /// The value at this position is neither `true` nor `false`.
    NotABool(usize),
    /// The flag at this position is not known.
    UnknownFlag(usize),
    /// The `-loud` or `-quiet` flag at this position was given for a layout
    /// with neither a center nor a low-frequency-effects channel.
    LoudnessWithoutCenter(usize),
}

/// The settings gathered from the flags so far. Settings whose values are
/// decimal fractions are kept as the position of their argument; the caller
/// reads the number there.
#[derive(Clone, Copy, Debug, PartialEq, Eq, Structural)]
pub struct FlagState {
    pub channel_layout: ChannelLayout,
    pub matrix_format: MatrixFormat,
    pub num_threads: Option<usize>,
    pub fft_size: Option<usize>,
    pub keep_awake: bool,
    pub loud: Option<bool>,
    pub loud_at: usize,
    pub low_frequency_at: Option<usize>,
    pub minimum_steered_amplitude_at: Option<usize>,
    pub headroom_at: Option<usize>,
}

/// The run configuration read from the command line. The source and target
/// paths are the arguments at positions 1 and 2.
#[derive(Clone, Copy, Debug, PartialEq, Eq, Structural)]
pub struct Arguments {
    pub channel_layout: ChannelLayout,
    pub matrix_format: MatrixFormat,
    pub num_threads: Option<usize>,
    pub fft_size: Option<usize>,
    pub keep_awake: bool,
    /// Whether a mono sum of the input is transformed, for a center or a
    /// low-frequency-effects channel.
    pub transform_mono: bool,
    pub loud: bool,
    pub low_frequency_at: Option<usize>,
    pub minimum_steered_amplitude_at: Option<usize>,
    pub headroom_at: Option<usize>,
}

/// The smallest transform size accepted on the command line.
pub const MIN_FFT_SIZE: usize = 6;

pub open spec fn initial_flags() -> FlagState {
    FlagState {
        channel_layout: ChannelLayout::FiveOne,
        matrix_format: MatrixFormat::Default,
        num_threads: None,
        fft_size: None,
        keep_awake: true,
        loud: None,
        loud_at: 0,
        low_frequency_at: None,
        minimum_steered_amplitude_at: None,
        headroom_at: None,
    }
}

pub open spec fn channel_layout_of(s: Seq<char>) -> Option<ChannelLayout> {
    if s == "4"@ {
        Some(ChannelLayout::Four)
    } else if s == "5"@ {
        Some(ChannelLayout::Five)
    } else if s == "5.1"@ {
        Some(ChannelLayout::FiveOne)
    } else {
        None
    }
}

pub open spec fn matrix_format_of(s: Seq<char>) -> Option<MatrixFormat> {
    if s == "default"@ {
        Some(MatrixFormat::Default)
    } else if s == "qs"@ || s == "rm"@ {
        Some(MatrixFormat::QS)
    } else if s == "horseshoe"@ {
        Some(MatrixFormat::HorseShoe)
    } else if s == "dolby"@ {
        Some(MatrixFormat::DolbyStereo)
    } else if s == "sq"@ {
        Some(MatrixFormat::SQ)
    } else if s == "sqexperimental"@ {
        Some(MatrixFormat::SQExperimental)
    } else {
        None
    }
}

pub open spec fn bool_of(s: Seq<char>) -> Option<bool> {
    if s == "true"@ {
        Some(true)
    } else if s == "false"@ {
        Some(false)
    } else {
        None
    }
}

/// Reads a channel layout name: `4`, `5` or `5.1`.
pub fn parse_channel_layout(s: &str) -> (r: Option<ChannelLayout>)
    ensures
        r == channel_layout_of(s@),
{
    if text_is(s, "4") {
        Some(ChannelLayout::Four)
    } else if text_is(s, "5") {
        Some(ChannelLayout::Five)
    } else if text_is(s, "5.1") {
        Some(ChannelLayout::FiveOne)
    } else {
        None
    }
}

/// Reads a decode-matrix name; `rm` is another name of `qs`.
pub fn parse_matrix_format(s: &str) -> (r: Option<MatrixFormat>)
    ensures
        r == matrix_format_of(s@),
{
    if text_is(s, "default") {
        Some(MatrixFormat::Default)
    } else if text_is(s, "qs") || text_is(s, "rm") {
        Some(MatrixFormat::QS)
    } else if text_is(s, "horseshoe") {
        Some(MatrixFormat::HorseShoe)
    } else if text_is(s, "dolby") {
        Some(MatrixFormat::DolbyStereo)
    } else if text_is(s, "sq") {
        Some(MatrixFormat::SQ)
    } else if text_is(s, "sqexperimental") {
        Some(MatrixFormat::SQExperimental)
    } else {
        None
    }
}

/// Reads `true` or `false`, as `bool`'s `FromStr` does.
pub fn parse_bool(s: &str) -> (r: Option<bool>)
    ensures
        r == bool_of(s@),
{
    if text_is(s, "true") {
        Some(true)
    } else if text_is(s, "false") {
        Some(false)
    } else {
        None
    }
}

/// The effect of the flag at position `i`: the new settings and whether the
/// flag took the next argument as its value.
pub open spec fn flag_step(args: Seq<String>, i: int, st: FlagState) -> Result<(FlagState, bool), ArgumentError> {
    let flag = args[i]@;
    let has_value = i < args.len() - 1;
    let value = args[i + 1]@;
    let at = i as usize;
    let value_at = (i + 1) as usize;
    if flag == "-fft_size"@ {
        if !has_value {
            Err(ArgumentError::MissingValue(at))
        } else {
            match decimal_of(value) {
                None => Err(ArgumentError::NotAnInteger(value_at)),
                Some(n) => if n < MIN_FFT_SIZE {
                    Err(ArgumentError::FftSizeTooSmall(value_at))
                } else {
                    Ok((FlagState { fft_size: Some(n), ..st }, true))
                },
            }
        }
    } else if flag == "-headroom"@ {
        if !has_value {
            Err(ArgumentError::MissingValue(at))
        } else {
            Ok((FlagState { headroom_at: Some(value_at), ..st }, true))
        }
    } else if flag == "-channels"@ {
        if !has_value {
            Err(ArgumentError::MissingValue(at))
        } else {
            match channel_layout_of(value) {
                None => Err(ArgumentError::UnknownChannels(value_at)),
                Some(l) => Ok((FlagState { channel_layout: l, ..st }, true)),
            }
        }
    } else if flag == "-matrix"@ {
        if !has_value {
            Err(ArgumentError::MissingValue(at))
        } else {
            match matrix_format_of(value) {
                None => Err(ArgumentError::UnknownMatrix(value_at)),
                Some(m) => Ok((FlagState { matrix_format: m, ..st }, true)),
            }
        }
    } else if flag == "-low"@ {
        if !has_value {
            Err(ArgumentError::MissingValue(at))
        } else {
            Ok((FlagState { low_frequency_at: Some(value_at), ..st }, true))
        }
    } else if flag == "-threads"@ {
        if !has_value {
            Err(ArgumentError::MissingValue(at))
        } else {
            match decimal_of(value) {
                None => Err(ArgumentError::NotAnInteger(value_at)),
                Some(n) => Ok((FlagState { num_threads: Some(n), ..st }, true)),
            }
        }
    } else if flag == "-minimum"@ {
        if !has_value {
            Err(ArgumentError::MissingValue(at))
        } else {
            Ok((FlagState { minimum_steered_amplitude_at: Some(value_at), ..st }, true))
        }
    } else if flag == "-keepawake"@ {
        if !has_value {
            Err(ArgumentError::MissingValue(at))
        } else {
            match bool_of(value) {
                None => Err(ArgumentError::NotABool(value_at)),
                Some(b) => Ok((FlagState { keep_awake: b, ..st }, true)),
            }
        }
    } else if flag == "-loud"@ {
        Ok((FlagState { loud: Some(true), loud_at: at, ..st }, false))
    } else if flag == "-quiet"@ {
        Ok((FlagState { loud: Some(false), loud_at: at, ..st }, false))
    } else {
        Err(ArgumentError::UnknownFlag(at))
    }
}

/// The settings after the flags from position `i` on.
pub open spec fn flags_from(args: Seq<String>, i: int, st: FlagState) -> Result<FlagState, ArgumentError>
    decreases args.len() - i,
{
    if i < 0 || i >= args.len() {
        Ok(st)
    } else {
        match flag_step(args, i, st) {
            Err(e) => Err(e),
            Ok((next, took_value)) => flags_from(args, i + if took_value { 2int } else { 1int }, next),
        }
    }
}

/// The configuration once every flag is read: a mono sum is transformed
/// unless the layout has four channels; loudness compensation defaults to
/// off, and is always on for four channels, where `-loud` and `-quiet` are
/// refused.
pub open spec fn finished(st: FlagState) -> Result<Arguments, ArgumentError> {
    let transform_mono = st.channel_layout != ChannelLayout::Four;
    if !transform_mono && st.loud is Some {
        Err(ArgumentError::LoudnessWithoutCenter(st.loud_at))
    } else {
        Ok(
            Arguments {
                channel_layout: st.channel_layout,
                matrix_format: st.matrix_format,
                num_threads: st.num_threads,
                fft_size: st.fft_size,
                keep_awake: st.keep_awake,
                transform_mono,
                loud: if transform_mono {
                    st.loud == Some(true)
                } else {
                    true
                },
                low_frequency_at: st.low_frequency_at,
                minimum_steered_amplitude_at: st.minimum_steered_amplitude_at,
                headroom_at: st.headroom_at,
            },
        )
    }
}

/// The configuration that the command line `args` asks for: the program
/// name, the source and target paths, then flags.
pub open spec fn arguments_of(args: Seq<String>) -> Result<Arguments, ArgumentError> {
    if args.len() < 3 {
        Err(ArgumentError::Usage)
    } else {
        match flags_from(args, 3, initial_flags()) {
            Err(e) => Err(e),
            Ok(st) => finished(st),
        }
    }
}

fn read_flag(args: &Vec<String>, i: usize, st: FlagState) -> (r: Result<(FlagState, bool), ArgumentError>)
    requires
        i < args@.len(),
    ensures
        r == flag_step(args@, i as int, st),
        r matches Ok((_, true)) ==> i + 1 < args@.len(),
{
    let flag = args[i].as_str();
    let has_value = i < args.len() - 1;
    if text_is(flag, "-fft_size") {
        if !has_value {
            return Err(ArgumentError::MissingValue(i));
        }
        match parse_decimal(args[i + 1].as_str()) {
            None => Err(ArgumentError::NotAnInteger(i + 1)),
            Some(n) => if n < MIN_FFT_SIZE {
                Err(ArgumentError::FftSizeTooSmall(i + 1))
            } else {
                Ok((FlagState { fft_size: Some(n), ..st }, true))
            },
        }
    } else if text_is(flag, "-headroom") {
        if !has_value {
            return Err(ArgumentError::MissingValue(i));
        }
        Ok((FlagState { headroom_at: Some(i + 1), ..st }, true))
    } else if text_is(flag, "-channels") {
        if !has_value {
            return Err(ArgumentError::MissingValue(i));
        }
        match parse_channel_layout(args[i + 1].as_str()) {
            None => Err(ArgumentError::UnknownChannels(i + 1)),
            Some(l) => Ok((FlagState { channel_layout: l, ..st }, true)),
        }
    } else if text_is(flag, "-matrix") {
        if !has_value {
            return Err(ArgumentError::MissingValue(i));
        }
        match parse_matrix_format(args[i + 1].as_str()) {
            None => Err(ArgumentError::UnknownMatrix(i + 1)),
            Some(m) => Ok((FlagState { matrix_format: m, ..st }, true)),
        }
    } else if text_is(flag, "-low") {
        if !has_value {
            return Err(ArgumentError::MissingValue(i));
        }
        Ok((FlagState { low_frequency_at: Some(i + 1), ..st }, true))
    } else if text_is(flag, "-threads") {
        if !has_value {
            return Err(ArgumentError::MissingValue(i));
        }
        match parse_decimal(args[i + 1].as_str()) {
            None => Err(ArgumentError::NotAnInteger(i + 1)),
            Some(n) => Ok((FlagState { num_threads: Some(n), ..st }, true)),
        }
    } else if text_is(flag, "-minimum") {
        if !has_value {
            return Err(ArgumentError::MissingValue(i));
        }
        Ok((FlagState { minimum_steered_amplitude_at: Some(i + 1), ..st }, true))
    } else if text_is(flag, "-keepawake") {
        if !has_value {
            return Err(ArgumentError::MissingValue(i));
        }
        match parse_bool(args[i + 1].as_str()) {
            None => Err(ArgumentError::NotABool(i + 1)),
            Some(b) => Ok((FlagState { keep_awake: b, ..st }, true)),
        }
    } else if text_is(flag, "-loud") {
        Ok((FlagState { loud: Some(true), loud_at: i, ..st }, false))
    } else if text_is(flag, "-quiet") {
        Ok((FlagState { loud: Some(false), loud_at: i, ..st }, false))
    } else {
        Err(ArgumentError::UnknownFlag(i))
    }
}

/// Reads the run configuration from the command line `args`: the program
/// name, the source and target paths, then any of the flags `-fft_size n`,
/// `-headroom db`, `-channels 4|5|5.1`, `-matrix name`, `-low hz`,
/// `-threads n`, `-minimum amplitude`, `-keepawake true|false`, `-loud` and
/// `-quiet`.
pub fn parse_arguments(args: &Vec<String>) -> (r: Result<Arguments, ArgumentError>)
    ensures
        r == arguments_of(args@),
{
    if args.len() < 3 {
        return Err(ArgumentError::Usage);
    }
    let mut st = FlagState {
        channel_layout: ChannelLayout::FiveOne,
        matrix_format: MatrixFormat::Default,
        num_threads: None,
        fft_size: None,
        keep_awake: true,
        loud: None,
        loud_at: 0,
        low_frequency_at: None,
        minimum_steered_amplitude_at: None,
        headroom_at: None,
    };
    let mut i: usize = 3;
    while i < args.len()
        invariant
            3 <= i <= args@.len(),
            flags_from(args@, i as int, st) == flags_from(args@, 3, initial_flags()),
        decreases args@.len() - i,
    {
        match read_flag(args, i, st) {
            Err(e) => {
                return Err(e);
            },
            Ok((next, took_value)) => {
                st = next;
                i = if took_value { i + 2 } else { i + 1 };
            },
        }
    }
    let transform_mono = !matches!(st.channel_layout, ChannelLayout::Four);
    if !transform_mono && st.loud.is_some() {
        return Err(ArgumentError::LoudnessWithoutCenter(st.loud_at));
    }
    let loud = if transform_mono { matches!(st.loud, Some(true)) } else { true };
    Ok(Arguments {
        channel_layout: st.channel_layout,
        matrix_format: st.matrix_format,
        num_threads: st.num_threads,
        fft_size: st.fft_size,
        keep_awake: st.keep_awake,
        transform_mono,
        loud,
        low_frequency_at: st.low_frequency_at,
        minimum_steered_amplitude_at: st.minimum_steered_amplitude_at,
        headroom_at: st.headroom_at,
    })
}

} // verus!
