use std::f32::consts::PI;

use convolver::comb_filter::{CombFilter, Error, FilterParam, FilterType};
use convolver::{BlockProduct, ConvolutionMode, FastConvolver, RingBuffer, Sample, LFO};
use rand::Rng;
use rustfft::num_complex::Complex;
use rustfft::FftPlanner;

/// Single-precision samples; blocks are multiplied in the frequency domain.
#[derive(Clone, Copy, Debug, Default, PartialEq)]
struct Real(f32);

impl Sample for Real {
    fn zero() -> Self {
        Real(0.0)
    }

    fn one() -> Self {
        Real(1.0)
    }

    fn plus(self, rhs: Self) -> Self {
        Real(self.0 + rhs.0)
    }

    fn minus(self, rhs: Self) -> Self {
        Real(self.0 - rhs.0)
    }

    fn times(self, rhs: Self) -> Self {
        Real(self.0 * rhs.0)
    }

    fn split(self) -> (usize, Self) {
        let floor = self.0.trunc();
        (floor as usize, Real(self.0 - floor))
    }
}

impl BlockProduct for Real {
    fn block_product(a: &[Self], b: &[Self]) -> Vec<Self> {
        let n = a.len() + b.len() - 1;
        let mut a_padded: Vec<Complex<f32>> = vec![Complex::new(0.0, 0.0); n];
        let mut b_padded: Vec<Complex<f32>> = vec![Complex::new(0.0, 0.0); n];
        for i in 0..a.len() {
            a_padded[i] = Complex::new(a[i].0, 0.0);
        }
        for i in 0..b.len() {
            b_padded[i] = Complex::new(b[i].0, 0.0);
        }
        let mut planner = FftPlanner::new();
        let fft = planner.plan_fft_forward(n);
        let ifft = planner.plan_fft_inverse(n);
        fft.process(&mut a_padded);
        fft.process(&mut b_padded);
        let mut spectrum: Vec<Complex<f32>> =
            a_padded.iter().zip(b_padded.iter()).map(|(x, y)| x * y).collect();
        ifft.process(&mut spectrum);
        spectrum.iter().map(|x| Real(x.re / n as f32)).collect()
    }
}

fn reals(samples: &[f32]) -> Vec<Real> {
    samples.iter().map(|&s| Real(s)).collect()
}

/// One period of a sine at `frequency`, sampled at `sample_rate`.
fn sine_table(sample_rate: f32, frequency: f32, amplitude: f32) -> Vec<f32> {
    let wavetable_size = (sample_rate / frequency) as usize;
    (0..wavetable_size)
        .map(|i| amplitude * (2.0 * PI * i as f32 / wavetable_size as f32).sin())
        .collect()
}

fn generate_random_impulse_response(len: usize) -> Vec<f32> {
    let mut rng = rand::thread_rng();
    (0..len).map(|_| rng.gen::<f32>()).collect()
}

#[test]
fn test_get_frac() {
    let capacity = 5;
    let mut ring_buffer = RingBuffer::new(capacity);

    for i in 0..capacity {
        ring_buffer.push(Real(i as f32));
    }
    assert_eq!(ring_buffer.get_frac(Real(0.0)).0, 0.0);
    assert_eq!(ring_buffer.get_frac(Real(0.5)).0, 0.5);
    assert_eq!(ring_buffer.get_frac(Real(1.0)).0, 1.0);
    assert_eq!(ring_buffer.get_frac(Real(1.75)).0, 1.75);
    assert_eq!(ring_buffer.get_frac(Real(2.9)).0, 2.9);
}

#[test]
fn block_product_of_reals_is_close_to_the_sum() {
    let a = [Real(1.0), Real(2.0), Real(3.0)];
    let b = [Real(0.5), Real(-1.0)];
    let r = Real::block_product(&a, &b);
    let expected = [0.5, 0.0, -0.5, -3.0];
    assert_eq!(r.len(), 4);
    for i in 0..4 {
        assert!((r[i].0 - expected[i]).abs() <= 1e-5);
    }
}

#[test]
fn test_identity_time() {
    let impulse_response = generate_random_impulse_response(51);
    let mut convolver =
        FastConvolver::new(&reals(&impulse_response), ConvolutionMode::TimeDomain);
    let mut input = vec![0.0; 10];
    input[3] = 1.0;
    let mut output = vec![Real(0.0); 10];
    convolver.process(&reals(&input), &mut output);

    for i in 0..10 {
        assert_eq!(output[i].0, if i >= 3 { impulse_response[i - 3] } else { 0.0 });
    }
}

#[test]
fn test_flush_time() {
    let impulse_response = generate_random_impulse_response(51);
    let mut convolver =
        FastConvolver::new(&reals(&impulse_response), ConvolutionMode::TimeDomain);
    let mut input = vec![0.0; 10];
    input[3] = 1.0;
    let mut output = vec![Real(0.0); 10];
    convolver.process(&reals(&input), &mut output);
    let mut tail = vec![Real(0.0); 50];
    convolver.flush(&mut tail);

    // Validate the reverb tail
    for i in 0..44 {
        assert_eq!(tail[i].0, impulse_response[output.len() - 3 + i]);
    }
    for i in 45..50 {
        assert_eq!(tail[i].0, 0.0);
    }
}

#[test]
fn test_blocksize_time() {
    let impulse_response = generate_random_impulse_response(51);
    let mut convolver =
        FastConvolver::new(&reals(&impulse_response), ConvolutionMode::TimeDomain);
    let mut input = vec![0.0; 10];
    input[3] = 1.0;
    let input = reals(&input);
    let block_sizes = [1, 13, 1023, 2048, 1, 17, 5000, 1897];
    let mut output_full = vec![0.0; 10000];

    for &block_size in &block_sizes {
        // Every block size sees the stream from its start.
        convolver.reset();
        for (i, chunk) in input.chunks(block_size).enumerate() {
            let mut output = vec![Real(0.0); chunk.len()];
            convolver.process(chunk, &mut output);
            for (j, &sample) in output.iter().enumerate() {
                output_full[i * block_size + j] = sample.0;
            }
        }
    }

    for i in 0..10 {
        assert_eq!(output_full[i], if i >= 3 { impulse_response[i - 3] } else { 0.0 });
    }
}

#[test]
fn test_overlap_add_time() {
    let impulse_response = generate_random_impulse_response(51);
    let mut convolver =
        FastConvolver::new(&reals(&impulse_response), ConvolutionMode::TimeDomain);
    let mut input = vec![0.0; 10];
    input[3] = 1.0;
    let mut output = vec![Real(0.0); 10];
    let block_size = 5;
    let full_output = convolver.overlap_add(&reals(&input), &mut output, block_size);

    for i in 0..10 {
        assert_eq!(full_output[i].0, if i >= 3 { impulse_response[i - 3] } else { 0.0 });
    }
}

#[test]
fn test_identity_freq() {
    let impulse_response = generate_random_impulse_response(52);
    let mut convolver = FastConvolver::new(
        &reals(&impulse_response),
        ConvolutionMode::FrequencyDomain { block_size: 2 },
    );
    let mut input = vec![0.0; 10];
    let epsilon = 1e-5;
    println!("impulse r {:?} ", impulse_response);
    input[3] = 1.0;
    let mut output = vec![Real(0.0); 10];
    convolver.process(&reals(&input), &mut output);
    println!("output {:?} ", output);

    for i in 0..10 {
        assert!(
            (output[i].0 - if i >= 3 { impulse_response[i - 3] } else { 0.0 }).abs() <= epsilon,
            "Values at index {} are not within epsilon: {} != {}",
            i,
            output[i].0,
            if i >= 3 { impulse_response[i - 3] } else { 0.0 }
        );
    }
}

#[test]
fn test_flush_freq() {
    let impulse_response = generate_random_impulse_response(51);
    let mut convolver = FastConvolver::new(
        &reals(&impulse_response),
        ConvolutionMode::FrequencyDomain { block_size: 8 },
    );
    let mut input = vec![0.0; 10];
    input[3] = 1.0;
    let epsilon = 1e-5;
    let mut output = vec![Real(0.0); 10];
    convolver.process(&reals(&input), &mut output);
    let mut tail = vec![Real(0.0); 50];
    convolver.flush(&mut tail);

    // Validate the reverb tail
    for i in 0..44 {
        assert!((tail[i].0 - impulse_response[output.len() - 3 + i]).abs() <= epsilon);
    }
    for i in 45..50 {
        assert!((tail[i].0 - 0.0).abs() <= epsilon);
    }
}

#[test]
fn test_blocksize_freq() {
    let impulse_response = generate_random_impulse_response(51);
    let mut convolver = FastConvolver::new(
        &reals(&impulse_response),
        ConvolutionMode::FrequencyDomain { block_size: 8 },
    );
    let mut input = vec![0.0; 10];
    input[3] = 1.0;
    let input = reals(&input);
    let epsilon = 1e-5;
    let block_sizes = [1, 13, 1023, 2048, 1, 17, 5000, 1897];
    let mut output_full = vec![0.0; 10000];

    for &block_size in &block_sizes {
        // Every block size sees the stream from its start.
        convolver.reset();
        for (i, chunk) in input.chunks(block_size).enumerate() {
            let mut output = vec![Real(0.0); chunk.len()];
            convolver.process(chunk, &mut output);
            for (j, &sample) in output.iter().enumerate() {
                output_full[i * block_size + j] = sample.0;
            }
        }
    }

    // Check the output against the impulse response
    for i in 0..10 {
        let expected: f32 = if i >= 3 { impulse_response[i - 3] } else { 0.0 };
        assert!((output_full[i] - expected).abs() <= epsilon);
    }
}

#[test]
fn shifted_impulse_scenario_in_single_precision() {
    let mut impulse_response = vec![0.0; 51];
    impulse_response[3] = 1.0;
    let mut input = vec![0.0; 10];
    input[3] = 1.0;
    let mut expected = vec![0.0; 10];
    expected[6] = 1.0;

    let mut time = FastConvolver::new(&reals(&impulse_response), ConvolutionMode::TimeDomain);
    let mut output = vec![Real(0.0); 10];
    time.process(&reals(&input), &mut output);
    for i in 0..10 {
        assert_eq!(output[i].0, expected[i]);
    }
    let mut tail = vec![Real(1.0); 50];
    time.flush(&mut tail);
    for i in 0..50 {
        assert_eq!(tail[i].0, 0.0);
    }

    let mut freq = FastConvolver::new(
        &reals(&impulse_response),
        ConvolutionMode::FrequencyDomain { block_size: 16 },
    );
    freq.process(&reals(&input), &mut output);
    for i in 0..10 {
        assert!((output[i].0 - expected[i]).abs() <= 1e-5);
    }
}

#[test]
fn modes_agree_within_tolerance() {
    let impulse_response = reals(&generate_random_impulse_response(200));
    let input = reals(&generate_random_impulse_response(300));
    let mut time = FastConvolver::new(&impulse_response, ConvolutionMode::TimeDomain);
    let mut freq =
        FastConvolver::new(&impulse_response, ConvolutionMode::FrequencyDomain { block_size: 64 });
    let mut whole = FastConvolver::new(&impulse_response, ConvolutionMode::TimeDomain);
    let mut time_output = vec![Real(0.0); 300];
    let mut freq_output = vec![Real(0.0); 300];
    let mut whole_output = vec![Real(0.0); 300];
    time.process(&input, &mut time_output);
    freq.process(&input, &mut freq_output);
    whole.fft_based_convolution(&input, &mut whole_output);
    for i in 0..300 {
        assert!((time_output[i].0 - freq_output[i].0).abs() <= 1e-3);
        assert!((time_output[i].0 - whole_output[i].0).abs() <= 1e-3);
    }
    let mut time_tail = vec![Real(0.0); 199];
    let mut freq_tail = vec![Real(0.0); 199];
    time.flush(&mut time_tail);
    freq.flush(&mut freq_tail);
    for i in 0..199 {
        assert!((time_tail[i].0 - freq_tail[i].0).abs() <= 1e-3);
    }
}

#[test]
fn block_size_does_not_matter_within_tolerance() {
    let impulse_response = reals(&generate_random_impulse_response(51));
    let input = reals(&generate_random_impulse_response(100));
    let mut reference = FastConvolver::new(&impulse_response, ConvolutionMode::TimeDomain);
    let mut expected = vec![Real(0.0); 100];
    reference.process(&input, &mut expected);

    for mode in [ConvolutionMode::TimeDomain, ConvolutionMode::FrequencyDomain { block_size: 8 }] {
        for &block_size in &[1usize, 13, 1023, 2048] {
            let mut convolver = FastConvolver::new(&impulse_response, mode);
            let mut emitted = Vec::new();
            for chunk in input.chunks(block_size) {
                let mut output = vec![Real(0.0); chunk.len()];
                convolver.process(chunk, &mut output);
                emitted.extend_from_slice(&output);
            }
            for i in 0..100 {
                assert!((emitted[i].0 - expected[i].0).abs() <= 1e-3);
            }
        }
    }
}

#[test]
fn test_lfo() {
    // test that LFO generates the correct values.
    let sample_rate = 44100.0;
    let frequency = 1.0;
    let amplitude = 1.0;
    let mut lfo = LFO::new(&sine_table(sample_rate, frequency, amplitude));
    let period = (sample_rate / frequency) as usize; // number of samples in one period
    for i in 0..period {
        let expected = amplitude * (2.0 * PI * i as f32 / period as f32).sin();
        let actual = lfo.get_sample();
        assert!((expected - actual).abs() < 1e-6);
    }
}

#[test]
fn test_set_frequency() {
    // test that a new wavetable changes the frequency of the LFO.
    let sample_rate = 44100.0;
    let frequency = 1.0;
    let amplitude = 1.0;
    let mut lfo = LFO::new(&sine_table(sample_rate, frequency, amplitude));
    lfo.set_wavetable(&sine_table(sample_rate, 2.0, amplitude));
    let period = (sample_rate / 2.0) as usize;
    for i in 0..period {
        let expected = amplitude * (2.0 * PI * i as f32 / period as f32).sin();
        let actual = lfo.get_sample();
        assert!((expected - actual).abs() < 1e-6);
    }
}

#[test]
fn test_set_amplitude() {
    // test that a new wavetable changes the amplitude of the LFO.
    let sample_rate = 44100.0;
    let frequency = 1.0;
    let amplitude = 1.0;
    let mut lfo = LFO::new(&sine_table(sample_rate, frequency, amplitude));
    lfo.set_wavetable(&sine_table(sample_rate, frequency, 2.0));
    let period = (sample_rate / frequency) as usize;
    for i in 0..period {
        let expected = 2.0 * (2.0 * PI * i as f32 / period as f32).sin();
        let actual = lfo.get_sample();
        assert!((expected - actual).abs() < 1e-6);
    }
}

#[test]
fn comb_filter_on_seconds_and_hertz() {
    // Lines of 0.01 s at 1000 Hz hold 10 samples.
    let mut filter = CombFilter::new(FilterType::FIR, Real(0.01), Real(1000.0), 1);
    assert_eq!(filter.max_delay_samples(), 10);
    assert_eq!(filter.get_param(FilterParam::Gain), Real(0.0));
    assert_eq!(filter.get_param(FilterParam::Delay), Real(0.01));
    assert!(filter.set_param(FilterParam::Gain, Real(0.5)).is_ok());

    match filter.set_param(FilterParam::Delay, Real(0.02)) {
        Err(Error::InvalidValue { param: FilterParam::Delay, value }) => {
            assert_eq!(value, Real(0.02))
        }
        other => panic!("a delay of 20 samples was taken by lines of 10: {:?}", other),
    }
    assert_eq!(filter.get_param(FilterParam::Delay), Real(0.01));

    let mut input = vec![Real(0.0); 25];
    input[0] = Real(1.0);
    let mut output = vec![vec![Real(0.0); 25]];
    filter.process(&[&input], &mut output);
    for i in 0..25 {
        let expected = if i == 0 {
            1.0
        } else if i == 10 {
            0.5
        } else {
            0.0
        };
        assert_eq!(output[0][i].0, expected);
    }
}

#[test]
fn single_precision_sums_follow_the_order_of_the_taps() {
    // 1 + 1e8 - 1e8 is 0 where the small term is added first, and 1 where it is added last.
    let impulse_response = reals(&[1.0, 1.0, 1.0]);
    let input = reals(&[-1e8, 1e8, 1.0]);

    let mut whole = FastConvolver::new(&impulse_response, ConvolutionMode::TimeDomain);
    let mut output = vec![Real(0.0); 3];
    whole.process(&input, &mut output);
    assert_eq!(output[2].0, 0.0);

    let mut cut = FastConvolver::new(&impulse_response, ConvolutionMode::TimeDomain);
    let mut first = vec![Real(0.0); 2];
    cut.process(&input[..2], &mut first);
    let mut second = vec![Real(0.0); 1];
    cut.process(&input[2..], &mut second);
    assert_eq!(first[0].0, output[0].0);
    assert_eq!(first[1].0, output[1].0);
    assert_eq!(second[0].0, 1.0);
}
