use audio_queue::{AudioQueue, Error, Resampler};
use av_data::value::Value;

struct PassThrough {
    staged: AudioQueue<u8>,
    configured: bool,
}

impl Resampler<u8> for PassThrough {
    fn configure(&mut self) -> Result<(), Error> {
        self.configured = true;
        Ok(())
    }

    fn set_option<'a>(&mut self, key: &str, val: Value<'a>) -> Result<(), Error> {
        match (key, val) {
            ("gain", Value::U64(1)) => Ok(()),
            ("gain", _) => Err(Error::ConfigurationInvalid),
            (other, _) => Err(Error::Unsupported(other.to_string())),
        }
    }

    fn send(&mut self, buf: &[u8]) -> Result<usize, Error> {
        if !self.configured {
            return Err(Error::ConfigurationIncomplete);
        }
        self.staged.send(&[buf]).map_err(|_| Error::InvalidData)?;
        Ok(buf.len())
    }

    fn receive(&mut self, buf: &mut [u8]) -> Result<usize, Error> {
        let ready = self.staged.len();
        if ready < buf.len() {
            return Err(Error::MoreDataNeeded);
        }
        self.staged.receive_interleaved(buf);
        Ok(buf.len())
    }

    fn flush(&mut self) -> Result<(), Error> {
        Ok(())
    }
}

#[test]
fn queue_stages_a_resampler() {
    let mut r = PassThrough { staged: AudioQueue::new(1), configured: false };
    assert_eq!(r.send(&[1, 2]), Err(Error::ConfigurationIncomplete));
    assert_eq!(r.set_option("gain", Value::U64(1)), Ok(()));
    assert_eq!(r.set_option("gain", Value::U64(2)), Err(Error::ConfigurationInvalid));
    assert_eq!(
        r.set_option("dither", Value::Bool(true)),
        Err(Error::Unsupported("dither".to_string()))
    );
    r.configure().unwrap();
    assert_eq!(r.send(&[1, 2, 3]), Ok(3));
    let out: &mut [u8] = &mut [0; 2];
    assert_eq!(r.receive(out), Ok(2));
    assert_eq!(out, &[1, 2]);
    assert_eq!(r.receive(out), Err(Error::MoreDataNeeded));
    r.flush().unwrap();
}
