//! Which encoder ffmpeg is asked to use, and the arguments that ask for it.

use crate::config::RenderConfig;
use crate::error::RenderError;
use crate::text;
use vstd::prelude::*;

verus! {

/// `String::from_utf8`: succeeds exactly on valid UTF-8, with the characters that the bytes
/// encode.
pub assume_specification[ String::from_utf8 ](vec: Vec<u8>) -> (r: Result<
    String,
    std::string::FromUtf8Error,
>)
    ensures
        r is Ok <==> vstd::utf8::valid_utf8(vec@),
        r matches Ok(s) ==> s@ == vstd::utf8::decode_utf8(vec@),
;

/// Reads what ffmpeg prints when it lists its codecs.
pub fn codec_listing(stdout: Vec<u8>) -> (r: Result<String, RenderError>)
    ensures
        match r {
            Ok(s) => vstd::utf8::valid_utf8(stdout@) && s@ == vstd::utf8::decode_utf8(stdout@),
            Err(e) => !vstd::utf8::valid_utf8(stdout@) && e is CodecListing,
        },
{
    match String::from_utf8(stdout) {
        Ok(s) => Ok(s),
        Err(e) => Err(RenderError::CodecListing(e)),
    }
}

/// The hardware encoders that may be used.
#[derive(Clone, Copy, PartialEq, Eq, Debug, Structural)]
pub struct HardwareEncoders {
    pub nvenc: bool,
    pub qsv: bool,
    pub amf: bool,
    pub nvenc_hevc: bool,
    pub qsv_hevc: bool,
    pub amf_hevc: bool,
}

/// The hardware encoders that the listing `codecs` offers: none unless acceleration is wanted,
/// and those for HEVC only where HEVC is wanted.
pub open spec fn listed(codecs: Seq<char>, accel: bool, hevc: bool) -> HardwareEncoders {
    HardwareEncoders {
        nvenc: accel && text::occurs(codecs, "h264_nvenc"@),
        qsv: accel && text::occurs(codecs, "h264_qsv"@),
        amf: accel && text::occurs(codecs, "h264_amf"@),
        nvenc_hevc: accel && hevc && text::occurs(codecs, "hevc_nvenc"@),
        qsv_hevc: accel && hevc && text::occurs(codecs, "hevc_qsv"@),
        amf_hevc: accel && hevc && text::occurs(codecs, "hevc_amf"@),
    }
}

/// Whether the request can be met: without acceleration always; with it, an H.264 hardware
/// encoder is needed, and for HEVC one for HEVC as well.
pub open spec fn suffices(e: HardwareEncoders, accel: bool, hevc: bool) -> bool {
    accel ==> {
        &&& e.nvenc || e.qsv || e.amf
        &&& hevc ==> e.nvenc_hevc || e.qsv_hevc || e.amf_hevc
    }
}

/// Finds the hardware encoders for `config` in ffmpeg's listing, or fails where acceleration
/// was asked for and they do not suffice.
pub fn find_encoders<S, D, C>(config: &RenderConfig<S, D, C>, codecs: &str) -> (r: Result<
    HardwareEncoders,
    RenderError,
>)
    ensures
        ({
            let e = listed(codecs@, config.hardware_accel, config.hevc);
            match r {
                Ok(found) => suffices(e, config.hardware_accel, config.hevc) && found == e,
                Err(err) => !suffices(e, config.hardware_accel, config.hevc)
                    && err is NoHardwareEncoder,
            }
        }),
{
    let accel = config.hardware_accel;
    let hevc = config.hevc;
    let chars = text::chars_of(codecs);
    let e = HardwareEncoders {
        nvenc: accel && text::contains(&chars, "h264_nvenc"),
        qsv: accel && text::contains(&chars, "h264_qsv"),
        amf: accel && text::contains(&chars, "h264_amf"),
        nvenc_hevc: accel && hevc && text::contains(&chars, "hevc_nvenc"),
        qsv_hevc: accel && hevc && text::contains(&chars, "hevc_qsv"),
        amf_hevc: accel && hevc && text::contains(&chars, "hevc_amf"),
    };
    if accel {
        if !(e.nvenc_hevc || e.qsv_hevc || e.amf_hevc) && hevc {
            return Err(RenderError::NoHardwareEncoder);
        } else if !(e.nvenc || e.qsv || e.amf) {
            return Err(RenderError::NoHardwareEncoder);
        }
    }
    Ok(e)
}

impl HardwareEncoders {
    /// The name of the encoder that is used. AMF encoders are never chosen: where nothing else
    /// is at hand the work is done in software.
    pub open spec fn encoder_name(self, hevc: bool) -> Seq<char> {
        if self.nvenc_hevc {
            "hevc_nvenc"@
        } else if self.nvenc {
            "h264_nvenc"@
        } else if self.qsv_hevc {
            "hevc_qsv"@
        } else if self.qsv {
            "h264_qsv"@
        } else if hevc {
            "libx265"@
        } else {
            "libx264"@
        }
    }

    /// Whether only an AMF encoder was found.
    pub open spec fn only_amf(self) -> bool {
        !self.nvenc && !self.qsv && self.amf
    }

    /// Which of the configured preset names is used.
    pub open spec fn preset_index(self) -> nat {
        if self.nvenc {
            1
        } else if self.only_amf() {
            2
        } else {
            0
        }
    }

    /// The argument that announces the preset.
    pub open spec fn preset_flag_text(self) -> Seq<char> {
        if self.only_amf() {
            "-quality"@
        } else {
            "-preset"@
        }
    }

    /// The argument that announces the rate: a quality where constant quality is asked for, else
    /// a bit rate.
    pub open spec fn rate_flag_text(self, constant_quality: bool) -> Seq<char> {
        if !constant_quality {
            "-b:v"@
        } else if self.nvenc {
            "-cq"@
        } else if self.qsv {
            "-q"@
        } else {
            "-crf"@
        }
    }

    /// The name of the encoder to use.
    pub fn encoder(&self, hevc: bool) -> (r: &'static str)
        ensures
            r@ == self.encoder_name(hevc),
    {
        if self.nvenc_hevc {
            "hevc_nvenc"
        } else if self.nvenc {
            "h264_nvenc"
        } else if self.qsv_hevc {
            "hevc_qsv"
        } else if self.qsv {
            "h264_qsv"
        } else if hevc {
            "libx265"
        } else {
            "libx264"
        }
    }

    /// Whether the work is done in software.
    pub fn in_software(&self) -> (r: bool)
        ensures
            r == !(self.nvenc_hevc || self.nvenc || self.qsv_hevc || self.qsv),
    {
        !(self.nvenc_hevc || self.nvenc || self.qsv_hevc || self.qsv)
    }

    /// The argument that announces the preset.
    pub fn preset_flag(&self) -> (r: &'static str)
        ensures
            r@ == self.preset_flag_text(),
    {
        if !self.nvenc && !self.qsv && self.amf {
            "-quality"
        } else {
            "-preset"
        }
    }

    /// The argument that announces the rate.
    pub fn rate_flag(&self, constant_quality: bool) -> (r: &'static str)
        ensures
            r@ == self.rate_flag_text(constant_quality),
    {
        if constant_quality {
            if self.nvenc {
                "-cq"
            } else if self.qsv {
                "-q"
            } else {
                "-crf"
            }
        } else {
            "-b:v"
        }
    }

    /// The preset for the encoder in use, out of the blank-separated names in `presets`; nothing
    /// where too few are given.
    pub fn preset_name(&self, presets: &str) -> (r: Option<String>)
        ensures
            match r {
                Some(name) => self.preset_index() < text::words(presets@).len() && name@
                    == text::words(presets@)[self.preset_index() as int],
                None => self.preset_index() >= text::words(presets@).len(),
            },
    {
        let names = text::split_words(presets);
        let i: usize = if self.nvenc {
            1
        } else if self.qsv {
            0
        } else if self.amf {
            2
        } else {
            0
        };
        assert(names.deep_view().len() == names@.len());
        if i < names.len() {
            assert(names.deep_view()[i as int] == names@[i as int]@);
            Some(names[i].clone())
        } else {
            None
        }
    }
}

/// The encoder in use is one that ffmpeg lists, or one of the two software encoders.
pub proof fn lemma_encoder_is_offered(codecs: Seq<char>, accel: bool, hevc: bool)
    ensures
        ({
            let name = listed(codecs, accel, hevc).encoder_name(hevc);
            ||| name == "libx264"@
            ||| name == "libx265"@
            ||| accel && text::occurs(codecs, name)
        }),
{
}

/// Without hardware acceleration the work is done in software: x265 for HEVC, else x264, with
/// the first preset and the flags of those encoders.
pub proof fn lemma_software_without_acceleration(codecs: Seq<char>, hevc: bool)
    ensures
        ({
            let e = listed(codecs, false, hevc);
            &&& suffices(e, false, hevc)
            &&& e.encoder_name(hevc) == if hevc {
                "libx265"@
            } else {
                "libx264"@
            }
            &&& e.preset_index() == 0
            &&& e.preset_flag_text() == "-preset"@
            &&& e.rate_flag_text(true) == "-crf"@
        }),
{
}

/// An HEVC encoder is used only where HEVC was asked for.
pub proof fn lemma_hevc_only_on_request(codecs: Seq<char>, accel: bool)
    ensures
        ({
            let name = listed(codecs, accel, false).encoder_name(false);
            name == "h264_nvenc"@ || name == "h264_qsv"@ || name == "libx264"@
        }),
{
}

/// Where acceleration was asked for and granted, the work is done in software only if AMF
/// encoders are all that there is.
pub proof fn lemma_granted_acceleration_is_used(codecs: Seq<char>, hevc: bool)
    requires
        suffices(listed(codecs, true, hevc), true, hevc),
    ensures
        ({
            let e = listed(codecs, true, hevc);
            !e.only_amf() ==> text::occurs(codecs, e.encoder_name(hevc))
        }),
{
}

proof fn lemma_found_is_named(codecs: Seq<char>, name: Seq<char>)
    ensures
        text::occurs(codecs, name) <==> exists|before: Seq<char>, after: Seq<char>|
            codecs == #[trigger] (before + name + after),
{
    if text::occurs(codecs, name) {
        text::lemma_found_pattern_stands_there(codecs, name);
    }
    if exists|before: Seq<char>, after: Seq<char>|
        codecs == #[trigger] (before + name + after) {
        let (before, after) = choose|before: Seq<char>, after: Seq<char>|
            codecs == #[trigger] (before + name + after);
        text::lemma_pattern_is_found(before, name, after);
    }
}

/// An encoder may be used exactly if its own name stands somewhere in the listing, acceleration
/// is wanted and, for HEVC, HEVC is wanted.
pub proof fn lemma_usable_means_named(codecs: Seq<char>, accel: bool, hevc: bool)
    ensures
        ({
            let e = listed(codecs, accel, hevc);
            &&& e.nvenc <==> accel && exists|before: Seq<char>, after: Seq<char>|
                codecs == #[trigger] (before + "h264_nvenc"@ + after)
            &&& e.qsv <==> accel && exists|before: Seq<char>, after: Seq<char>|
                codecs == #[trigger] (before + "h264_qsv"@ + after)
            &&& e.amf <==> accel && exists|before: Seq<char>, after: Seq<char>|
                codecs == #[trigger] (before + "h264_amf"@ + after)
            &&& e.nvenc_hevc <==> accel && hevc && exists|before: Seq<char>, after: Seq<char>|
                codecs == #[trigger] (before + "hevc_nvenc"@ + after)
            &&& e.qsv_hevc <==> accel && hevc && exists|before: Seq<char>, after: Seq<char>|
                codecs == #[trigger] (before + "hevc_qsv"@ + after)
            &&& e.amf_hevc <==> accel && hevc && exists|before: Seq<char>, after: Seq<char>|
                codecs == #[trigger] (before + "hevc_amf"@ + after)
        }),
{
    lemma_found_is_named(codecs, "h264_nvenc"@);
    lemma_found_is_named(codecs, "h264_qsv"@);
    lemma_found_is_named(codecs, "h264_amf"@);
    lemma_found_is_named(codecs, "hevc_nvenc"@);
    lemma_found_is_named(codecs, "hevc_qsv"@);
    lemma_found_is_named(codecs, "hevc_amf"@);
}

/// A request is granted exactly if it asks for no acceleration, or an H.264 hardware encoder is
/// named and, where HEVC is asked for, one for HEVC too.
pub proof fn lemma_when_a_request_is_granted(codecs: Seq<char>, accel: bool, hevc: bool)
    ensures
        !suffices(listed(codecs, accel, hevc), accel, hevc) <==> accel && ({
            ||| !(text::occurs(codecs, "h264_nvenc"@) || text::occurs(codecs, "h264_qsv"@)
                || text::occurs(codecs, "h264_amf"@))
            ||| hevc && !(text::occurs(codecs, "hevc_nvenc"@) || text::occurs(codecs, "hevc_qsv"@)
                || text::occurs(codecs, "hevc_amf"@))
        }),
{
}

/// A bit rate is announced by the same flag for all encoders, and never as a quality; a quality
/// is announced as the encoder wants it.
pub proof fn lemma_rate_is_announced_as_asked(e: HardwareEncoders)
    ensures
        e.rate_flag_text(false) == "-b:v"@,
        e.nvenc ==> e.rate_flag_text(true) == "-cq"@,
        e.qsv && !e.nvenc ==> e.rate_flag_text(true) == "-q"@,
        !e.nvenc && !e.qsv ==> e.rate_flag_text(true) == "-crf"@,
        e.rate_flag_text(false) != e.rate_flag_text(true),
{
    reveal_strlit("-b:v");
    reveal_strlit("-cq");
    reveal_strlit("-q");
    reveal_strlit("-crf");
    assert("-b:v"@[1] == 'b' && "-cq"@[1] == 'c' && "-q"@[1] == 'q' && "-crf"@[1] == 'c');
}

/// Each of the three makers has its own place in the list of presets, and only AMF its own flag.
pub proof fn lemma_preset_of_each_maker(e: HardwareEncoders)
    ensures
        e.nvenc ==> e.preset_index() == 1 && e.preset_flag_text() == "-preset"@,
        e.qsv && !e.nvenc ==> e.preset_index() == 0 && e.preset_flag_text() == "-preset"@,
        e.amf && !e.nvenc && !e.qsv ==> e.preset_index() == 2 && e.preset_flag_text()
            == "-quality"@,
        !e.amf && !e.nvenc && !e.qsv ==> e.preset_index() == 0 && e.preset_flag_text()
            == "-preset"@,
{
}

/// NVENC comes before QSV and QSV before software, and of one maker HEVC before H.264; software
/// makes what was asked for.
pub proof fn lemma_order_of_preference(e: HardwareEncoders, hevc: bool)
    ensures
        e.nvenc_hevc ==> e.encoder_name(hevc) == "hevc_nvenc"@,
        e.nvenc && !e.nvenc_hevc ==> e.encoder_name(hevc) == "h264_nvenc"@,
        !e.nvenc && !e.nvenc_hevc && e.qsv_hevc ==> e.encoder_name(hevc) == "hevc_qsv"@,
        !e.nvenc && !e.nvenc_hevc && !e.qsv_hevc && e.qsv ==> e.encoder_name(hevc) == "h264_qsv"@,
        !e.nvenc && !e.nvenc_hevc && !e.qsv_hevc && !e.qsv ==> e.encoder_name(hevc) == if hevc {
            "libx265"@
        } else {
            "libx264"@
        },
{
}

/// What stands behind in the order of preference does not matter: where NVENC encoders agree and
/// there is one for H.264, the choice is the same, whatever else is there; and AMF encoders never
/// change the encoder.
pub proof fn lemma_lesser_encoders_do_not_matter(
    e: HardwareEncoders,
    f: HardwareEncoders,
    hevc: bool,
    constant_quality: bool,
)
    requires
        e.nvenc == f.nvenc,
        e.nvenc_hevc == f.nvenc_hevc,
        e.nvenc || (e.qsv == f.qsv && e.qsv_hevc == f.qsv_hevc),
    ensures
        e.encoder_name(hevc) == f.encoder_name(hevc),
        e.rate_flag_text(constant_quality) == f.rate_flag_text(constant_quality),
        e.nvenc || e.qsv ==> e.preset_index() == f.preset_index() && e.preset_flag_text()
            == f.preset_flag_text(),
{
}

/// From the listing to the choice: where H.264 is asked for with acceleration, a listing that
/// names NVENC leads to NVENC, one that names QSV and not NVENC to QSV, and one that names
/// neither to software.
pub proof fn lemma_choice_for_h264(codecs: Seq<char>, constant_quality: bool)
    ensures
        ({
            let e = listed(codecs, true, false);
            let nvenc = text::occurs(codecs, "h264_nvenc"@);
            let qsv = text::occurs(codecs, "h264_qsv"@);
            &&& nvenc ==> e.encoder_name(false) == "h264_nvenc"@
            &&& qsv && !nvenc ==> e.encoder_name(false) == "h264_qsv"@
            &&& !qsv && !nvenc ==> e.encoder_name(false) == "libx264"@
            &&& !constant_quality ==> e.rate_flag_text(constant_quality) == "-b:v"@
        }),
{
}

/// From the listing to the choice: where HEVC is asked for with acceleration, an HEVC encoder that
/// is named is used, NVENC's first, unless NVENC is named for H.264 alone.
pub proof fn lemma_choice_for_hevc(codecs: Seq<char>)
    ensures
        ({
            let e = listed(codecs, true, true);
            let nvenc = text::occurs(codecs, "hevc_nvenc"@);
            let qsv = text::occurs(codecs, "hevc_qsv"@);
            &&& nvenc ==> e.encoder_name(true) == "hevc_nvenc"@
            &&& qsv && !nvenc && !text::occurs(codecs, "h264_nvenc"@) ==> e.encoder_name(true)
                == "hevc_qsv"@
        }),
{
}

/// From the request to the arguments. Without acceleration a request is always granted, and the
/// software encoder for the format that was asked for is used. With acceleration NVENC is used
/// where it is listed for the format, and the request fails where nothing is listed. A bit rate
/// is always announced as one.
pub proof fn lemma_from_request_to_encoder<S, D, C>(
    config: RenderConfig<S, D, C>,
    codecs: &str,
    r: Result<HardwareEncoders, RenderError>,
    name: &'static str,
    rate: &'static str,
)
    requires
        call_ensures(find_encoders::<S, D, C>, (&config, codecs), r),
        r matches Ok(e) ==> call_ensures(HardwareEncoders::encoder, (&e, config.hevc), name)
            && call_ensures(HardwareEncoders::rate_flag, (&e, false), rate),
    ensures
        !config.hardware_accel ==> r is Ok && name@ == if config.hevc {
            "libx265"@
        } else {
            "libx264"@
        },
        config.hardware_accel && config.hevc && r is Ok && text::occurs(codecs@, "hevc_nvenc"@)
            ==> name@ == "hevc_nvenc"@,
        config.hardware_accel && !config.hevc && text::occurs(codecs@, "h264_nvenc"@) ==> r is Ok
            && name@ == "h264_nvenc"@,
        config.hardware_accel && !config.hevc && !text::occurs(codecs@, "h264_nvenc"@)
            && text::occurs(codecs@, "h264_qsv"@) ==> r is Ok && name@ == "h264_qsv"@,
        config.hardware_accel && !text::occurs(codecs@, "h264_nvenc"@) && !text::occurs(
            codecs@,
            "h264_qsv"@,
        ) && !text::occurs(codecs@, "h264_amf"@) ==> r is Err,
        config.hardware_accel && config.hevc && !text::occurs(codecs@, "hevc_nvenc"@)
            && !text::occurs(codecs@, "hevc_qsv"@) && !text::occurs(codecs@, "hevc_amf"@)
            ==> r is Err,
        r is Ok ==> rate@ == "-b:v"@,
        r matches Err(e) ==> e is NoHardwareEncoder && config.hardware_accel,
{
}

/// The work is done in software exactly if the encoder in use is one of the software encoders.
pub proof fn lemma_software_is_what_it_says(
    e: HardwareEncoders,
    hevc: bool,
    name: &'static str,
    software: bool,
)
    requires
        call_ensures(HardwareEncoders::encoder, (&e, hevc), name),
        call_ensures(HardwareEncoders::in_software, (&e,), software),
    ensures
        software <==> name@ == "libx264"@ || name@ == "libx265"@,
        software ==> (name@ == "libx265"@ <==> hevc),
{
    reveal_strlit("libx264");
    reveal_strlit("libx265");
    reveal_strlit("hevc_nvenc");
    reveal_strlit("h264_nvenc");
    reveal_strlit("hevc_qsv");
    reveal_strlit("h264_qsv");
    assert("libx264"@[6] == '4' && "libx265"@[6] == '5');
    assert("libx264"@[0] == 'l' && "libx265"@[0] == 'l');
    assert("hevc_nvenc"@[0] == 'h' && "h264_nvenc"@[0] == 'h' && "hevc_qsv"@[0] == 'h'
        && "h264_qsv"@[0] == 'h');
}

/// Of three preset names the first is for QSV and for software, the second for NVENC, and the
/// third for AMF, which alone calls the preset a quality.
pub proof fn lemma_preset_for_each_encoder(
    e: HardwareEncoders,
    presets: &str,
    first: Seq<char>,
    second: Seq<char>,
    third: Seq<char>,
    r: Option<String>,
    flag: &'static str,
)
    requires
        text::words(presets@) == seq![first, second, third],
        call_ensures(HardwareEncoders::preset_name, (&e, presets), r),
        call_ensures(HardwareEncoders::preset_flag, (&e,), flag),
    ensures
        r is Some,
        e.nvenc ==> r->0@ == second && flag@ == "-preset"@,
        !e.nvenc && e.qsv ==> r->0@ == first && flag@ == "-preset"@,
        !e.nvenc && !e.qsv && e.amf ==> r->0@ == third && flag@ == "-quality"@,
        !e.nvenc && !e.qsv && !e.amf ==> r->0@ == first && flag@ == "-preset"@,
{
}

/// A listing that was encoded in UTF-8 is read as it was, and what is read encodes to the bytes
/// that came.
pub proof fn lemma_listing_is_read_as_it_was(
    listing: Seq<char>,
    stdout: Vec<u8>,
    r: Result<String, RenderError>,
)
    requires
        call_ensures(codec_listing, (stdout,), r),
    ensures
        stdout@ == vstd::utf8::encode_utf8(listing) ==> r is Ok && r->Ok_0@ == listing,
        r matches Ok(s) ==> vstd::utf8::encode_utf8(s@) == stdout@,
        r matches Err(e) ==> e is CodecListing,
{
    vstd::utf8::encode_utf8_valid_utf8(listing);
    vstd::utf8::encode_utf8_decode_utf8(listing);
    if r is Ok {
        vstd::utf8::decode_utf8_encode_utf8(stdout@);
    }
}

} // verus!
